//! A mock SHiP (State History Plugin) server session, for testing.
//!
//! 1. The server sends its ABI as a Text frame.
//! 2. The client sends `state_request` variants as Binary frames.
//! 3. The server answers with `state_result` variants; of requested blocks it sends as
//!    many as the client has given it credit for.
//!
//! The session decides; whoever runs it performs each `MockAction` and reports what came
//! of it as the next `MockEvent`.

use std::time::Duration;
use vstd::prelude::*;

use crate::frame::{Frame, FrameModel};
use crate::protocol::{
    decode_request, encode_blocks_result_v0_with_data, encode_status_result_v0_with_range,
    generate_fake_data, is_decodable, ShipRequest,
};

verus! {

/// Configuration for a mock SHiP server instance.
#[derive(Debug, Clone, Copy)]
pub struct MockShipConfig {
    /// TCP port to bind to. Use 0 for a random available port.
    pub port: u16,
    /// Simulated head block number.
    pub head_block: u32,
    /// Simulated last irreversible block number.
    pub lib_block: u32,
    /// Number of blocks to stream before stopping (0 = unlimited until end_block).
    pub blocks_to_stream: u32,
    /// Optional delay between sending each block result (simulates slow upstream).
    pub block_delay: Option<Duration>,
    /// Optional: disconnect after sending N blocks (simulates upstream failure).
    pub disconnect_after: Option<u32>,
    /// 32-byte chain ID.
    pub chain_id: [u8; 32],
    /// Size of fake data payloads per block (bytes). 0 = no data even if requested.
    pub block_data_size: usize,
    /// First block with trace data available. Default: 1.
    pub trace_begin_block: u32,
    /// One past last block with trace data. Default: 0 = use head_block + 1.
    pub trace_end_block: u32,
}

impl Default for MockShipConfig {
    fn default() -> (config: Self)
        ensures
            config.port == 0,
            config.head_block == 1000,
            config.lib_block == 990,
            config.blocks_to_stream == 100,
            config.block_delay is None,
            config.disconnect_after is None,
            config.chain_id@ == Seq::new(32, |i: int| 0u8),
            config.block_data_size == 0,
            config.trace_begin_block == 1,
            config.trace_end_block == 0,
    {
        let chain_id: [u8; 32] = [0u8; 32];
        assert(chain_id@ =~= Seq::new(32, |i: int| 0u8));
        MockShipConfig {
            port: 0,
            head_block: 1000,
            lib_block: 990,
            blocks_to_stream: 100,
            block_delay: None,
            disconnect_after: None,
            chain_id,
            block_data_size: 0,
            trace_begin_block: 1,
            trace_end_block: 0,
        }
    }
}

/// Where a mock session stands.
#[derive(Debug, Clone, Copy, PartialEq, Eq)]
pub enum MockPhase {
    /// The ABI is on its way to the client.
    SendingAbi,
    /// The next request is awaited.
    Reading,
    /// A block is on its way to the client.
    SendingBlock,
    /// A status result is on its way to the client.
    SendingStatus,
    /// The session is over.
    Ended,
}

/// The model of a `MockSession`.
pub struct MockModel {
    pub phase: MockPhase,
    /// How many more blocks the client is ready to take.
    pub send_credits: u32,
    /// The next block of the request.
    pub current_block: Option<u32>,
    /// One past the last block of the request.
    pub end_block: u32,
    /// How many blocks of the request were sent.
    pub blocks_sent: u32,
    pub fetch_block: bool,
    pub fetch_traces: bool,
    pub fetch_deltas: bool,
}

/// What happened to a mock session.
#[derive(Debug)]
pub enum MockEvent {
    /// What was to be sent has been sent.
    Sent,
    /// What was to be sent could not be sent.
    SendFailed,
    /// The client sent a frame.
    Received(Frame),
    /// The client's stream ended or failed.
    StreamEnded,
}

/// What a mock session does next.
#[derive(Debug)]
pub enum MockAction {
    /// Send the ABI, as a text frame.
    SendAbi,
    /// Wait for the delay, if there is one, then send these bytes as a binary frame.
    Send { bytes: Vec<u8>, delay: Option<Duration> },
    /// Wait for a frame of the client.
    Read,
    /// Drop the connection; the session is over.
    End,
    /// Go on with what is being done: the event does not concern it.
    Ignore,
}

/// The model of a `MockEvent`.
pub enum MockEventModel {
    Sent,
    SendFailed,
    Received(FrameModel),
    StreamEnded,
}

/// The model of a `MockAction`.
pub enum MockActionModel {
    SendAbi,
    Send { bytes: Seq<u8>, delay: Option<Duration> },
    Read,
    End,
    Ignore,
}

impl View for MockEvent {
    type V = MockEventModel;

    open spec fn view(&self) -> MockEventModel {
        match self {
            MockEvent::Sent => MockEventModel::Sent,
            MockEvent::SendFailed => MockEventModel::SendFailed,
            MockEvent::Received(frame) => MockEventModel::Received(frame@),
            MockEvent::StreamEnded => MockEventModel::StreamEnded,
        }
    }
}

impl View for MockAction {
    type V = MockActionModel;

    open spec fn view(&self) -> MockActionModel {
        match self {
            MockAction::SendAbi => MockActionModel::SendAbi,
            MockAction::Send { bytes, delay } => MockActionModel::Send {
                bytes: bytes@,
                delay: *delay,
            },
            MockAction::Read => MockActionModel::Read,
            MockAction::End => MockActionModel::End,
            MockAction::Ignore => MockActionModel::Ignore,
        }
    }
}

// ---------------------------------------------------------------------------
// What a session sends
// ---------------------------------------------------------------------------

/// The block to send next, where one is due: the client has given credit, the request
/// has a block left, and the limit of blocks to stream is not reached.
pub open spec fn due_block(m: MockModel, config: MockShipConfig) -> Option<u32> {
    match m.current_block {
        Some(block) => if m.send_credits > 0 && block < m.end_block && (config.blocks_to_stream == 0
            || m.blocks_sent < config.blocks_to_stream) {
            Some(block)
        } else {
            None
        },
        None => None,
    }
}

/// Whether the session simulates a failure now.
pub open spec fn disconnect_due(m: MockModel, config: MockShipConfig) -> bool {
    match config.disconnect_after {
        Some(limit) => m.blocks_sent >= limit,
        None => false,
    }
}

/// A block number, wrapped to 32 bits.
pub open spec fn wrapped(n: int) -> u32 {
    (n % 0x1_0000_0000) as u32
}

/// A payload of a block: absent where the client does not want it or there is no data.
pub open spec fn payload(wanted: bool, config: MockShipConfig, seed: u32) -> Option<Seq<u8>> {
    if wanted && config.block_data_size > 0 {
        Some(crate::protocol::fake_data(seed, config.block_data_size as nat))
    } else {
        None
    }
}

/// The message that delivers a block.
#[verifier::opaque]
pub open spec fn block_message(m: MockModel, config: MockShipConfig, block: u32) -> Seq<u8> {
    crate::protocol::blocks_result(
        config.head_block,
        config.lib_block,
        block,
        payload(m.fetch_block, config, block),
        payload(m.fetch_traces, config, wrapped(block + 1000)),
        payload(m.fetch_deltas, config, wrapped(block + 2000)),
    )
}

/// The message that reports the status.
pub open spec fn status_message(config: MockShipConfig) -> Seq<u8> {
    crate::protocol::status_result(
        config.head_block,
        config.lib_block,
        config.chain_id@,
        config.trace_begin_block,
        if config.trace_end_block > 0 {
            config.trace_end_block
        } else {
            (config.head_block + 1) as u32
        },
    )
}

// ---------------------------------------------------------------------------
// Transitions
// ---------------------------------------------------------------------------

/// A new session.
pub open spec fn mock_opened() -> MockModel {
    MockModel {
        phase: MockPhase::SendingAbi,
        send_credits: 0,
        current_block: None,
        end_block: 0,
        blocks_sent: 0,
        fetch_block: false,
        fetch_traces: false,
        fetch_deltas: false,
    }
}

/// Sends the block that is due, or waits for the next request.
pub open spec fn mock_output(m: MockModel, config: MockShipConfig) -> (MockModel, MockActionModel) {
    match due_block(m, config) {
        Some(block) => if disconnect_due(m, config) {
            (MockModel { phase: MockPhase::Ended, ..m }, MockActionModel::End)
        } else {
            (
                MockModel { phase: MockPhase::SendingBlock, ..m },
                MockActionModel::Send {
                    bytes: block_message(m, config, block),
                    delay: config.block_delay,
                },
            )
        },
        None => (MockModel { phase: MockPhase::Reading, ..m }, MockActionModel::Read),
    }
}

/// The session after a block was sent.
pub open spec fn block_done(m: MockModel) -> MockModel {
    MockModel {
        phase: MockPhase::Reading,
        current_block: Some((m.current_block->0 + 1) as u32),
        send_credits: (m.send_credits - 1) as u32,
        blocks_sent: (m.blocks_sent + 1) as u32,
        ..m
    }
}

/// The session after a request for blocks came.
pub open spec fn blocks_requested(
    m: MockModel,
    start: u32,
    end: u32,
    credits: u32,
    fetch_block: bool,
    fetch_traces: bool,
    fetch_deltas: bool,
) -> MockModel {
    MockModel {
        phase: m.phase,
        send_credits: credits,
        current_block: Some(start),
        end_block: end,
        blocks_sent: 0,
        fetch_block,
        fetch_traces,
        fetch_deltas,
    }
}

/// The session after a request came, and what it does next.
pub open spec fn mock_answer(m: MockModel, config: MockShipConfig, request: ShipRequest) -> (
    MockModel,
    MockActionModel,
) {
    match request {
        ShipRequest::GetStatusV0 | ShipRequest::GetStatusV1 => (
            MockModel { phase: MockPhase::SendingStatus, ..m },
            MockActionModel::Send { bytes: status_message(config), delay: None },
        ),
        ShipRequest::GetBlocksV0 {
            start_block_num,
            end_block_num,
            max_messages_in_flight,
            fetch_block,
            fetch_traces,
            fetch_deltas,
        } => mock_output(
            blocks_requested(
                m,
                start_block_num,
                end_block_num,
                max_messages_in_flight,
                fetch_block,
                fetch_traces,
                fetch_deltas,
            ),
            config,
        ),
        ShipRequest::GetBlocksV1 {
            start_block_num,
            end_block_num,
            max_messages_in_flight,
            fetch_block,
            fetch_traces,
            fetch_deltas,
        } => mock_output(
            blocks_requested(
                m,
                start_block_num,
                end_block_num,
                max_messages_in_flight,
                fetch_block,
                fetch_traces,
                fetch_deltas,
            ),
            config,
        ),
        ShipRequest::GetBlocksAckV0 { num_messages } => mock_output(
            MockModel { send_credits: (m.send_credits + num_messages) as u32, ..m },
            config,
        ),
        ShipRequest::Unknown(_) => mock_output(m, config),
    }
}

/// The session after an event, and what it does next.
pub open spec fn mock_transition(m: MockModel, config: MockShipConfig, event: MockEventModel) -> (
    MockModel,
    MockActionModel,
) {
    let ended = (MockModel { phase: MockPhase::Ended, ..m }, MockActionModel::End);
    match (m.phase, event) {
        (MockPhase::Ended, _) => ended,
        (MockPhase::Reading, MockEventModel::Received(frame)) => match frame {
            FrameModel::Binary(data) => mock_answer(m, config, crate::protocol::request(data)),
            FrameModel::Close(_) => ended,
            _ => mock_output(m, config),
        },
        (MockPhase::Reading, MockEventModel::StreamEnded) => ended,
        (MockPhase::Reading, _) => (m, MockActionModel::Ignore),
        (_, MockEventModel::SendFailed) => ended,
        (MockPhase::SendingAbi, MockEventModel::Sent) => mock_output(m, config),
        (MockPhase::SendingStatus, MockEventModel::Sent) => mock_output(m, config),
        (MockPhase::SendingBlock, MockEventModel::Sent) => mock_output(block_done(m), config),
        _ => (m, MockActionModel::Ignore),
    }
}

/// What every session keeps: no more blocks are sent than the block number counts, and a
/// block that is being sent is one that the client gave credit for.
pub open spec fn mock_valid(m: MockModel) -> bool {
    &&& m.blocks_sent > 0 ==> m.current_block is Some
    &&& m.current_block matches Some(block) ==> m.blocks_sent <= block
    &&& m.phase == MockPhase::SendingBlock ==> m.current_block is Some && m.current_block->0
        < m.end_block && m.send_credits > 0
}

/// An event that the session can take in: a request can be decoded, a status can be
/// reported, and the credit can be counted.
pub open spec fn mock_accepts(m: MockModel, config: MockShipConfig, event: MockEventModel) -> bool {
    m.phase == MockPhase::Reading ==> match event {
        MockEventModel::Received(FrameModel::Binary(data)) => {
            &&& crate::protocol::decodable(data)
            &&& match crate::protocol::request(data) {
                ShipRequest::GetStatusV0 | ShipRequest::GetStatusV1 => config.head_block
                    < u32::MAX,
                ShipRequest::GetBlocksAckV0 { num_messages } => m.send_credits + num_messages
                    <= u32::MAX,
                _ => true,
            }
        },
        _ => true,
    }
}

proof fn lemma_output_valid(m: MockModel, config: MockShipConfig)
    requires
        mock_valid(MockModel { phase: MockPhase::Reading, ..m }),
    ensures
        mock_valid(mock_output(m, config).0),
{
}

proof fn lemma_answer_valid(m: MockModel, config: MockShipConfig, request: ShipRequest)
    requires
        mock_valid(m),
        m.phase == MockPhase::Reading,
    ensures
        mock_valid(mock_answer(m, config, request).0),
{
    match request {
        ShipRequest::GetBlocksV0 {
            start_block_num,
            end_block_num,
            max_messages_in_flight,
            fetch_block,
            fetch_traces,
            fetch_deltas,
        } => {
            lemma_output_valid(
                blocks_requested(
                    m,
                    start_block_num,
                    end_block_num,
                    max_messages_in_flight,
                    fetch_block,
                    fetch_traces,
                    fetch_deltas,
                ),
                config,
            );
        },
        ShipRequest::GetBlocksV1 {
            start_block_num,
            end_block_num,
            max_messages_in_flight,
            fetch_block,
            fetch_traces,
            fetch_deltas,
        } => {
            lemma_output_valid(
                blocks_requested(
                    m,
                    start_block_num,
                    end_block_num,
                    max_messages_in_flight,
                    fetch_block,
                    fetch_traces,
                    fetch_deltas,
                ),
                config,
            );
        },
        ShipRequest::GetBlocksAckV0 { num_messages } => {
            lemma_output_valid(
                MockModel { send_credits: (m.send_credits + num_messages) as u32, ..m },
                config,
            );
        },
        _ => {
            lemma_output_valid(m, config);
        },
    }
}

/// A session keeps its invariant.
pub proof fn law_mock_stays_valid(m: MockModel, config: MockShipConfig, event: MockEventModel)
    requires
        mock_valid(m),
    ensures
        mock_valid(mock_transition(m, config, event).0),
{
    lemma_output_valid(m, config);
    if m.phase == MockPhase::SendingBlock {
        lemma_output_valid(block_done(m), config);
    }
    if m.phase == MockPhase::Reading {
        if let MockEventModel::Received(FrameModel::Binary(data)) = event {
            lemma_answer_valid(m, config, crate::protocol::request(data));
        }
    }
}

// ---------------------------------------------------------------------------
// The session
// ---------------------------------------------------------------------------

/// The state of a session with one client.
#[derive(Debug)]
pub struct MockSession {
    phase: MockPhase,
    send_credits: u32,
    current_block: Option<u32>,
    end_block: u32,
    blocks_sent: u32,
    fetch_block: bool,
    fetch_traces: bool,
    fetch_deltas: bool,
}

impl View for MockSession {
    type V = MockModel;

    closed spec fn view(&self) -> MockModel {
        MockModel {
            phase: self.phase,
            send_credits: self.send_credits,
            current_block: self.current_block,
            end_block: self.end_block,
            blocks_sent: self.blocks_sent,
            fetch_block: self.fetch_block,
            fetch_traces: self.fetch_traces,
            fetch_deltas: self.fetch_deltas,
        }
    }
}

/// A payload of a block.
fn make_payload(wanted: bool, config: &MockShipConfig, seed: u32) -> (data: Option<Vec<u8>>)
    ensures
        match data {
            Some(d) => payload(wanted, *config, seed) == Some(d@),
            None => payload(wanted, *config, seed) is None,
        },
{
    if wanted && config.block_data_size > 0 {
        Some(generate_fake_data(seed, config.block_data_size))
    } else {
        None
    }
}

/// The bytes of an optional vector, without copying.
fn as_bytes(data: &Option<Vec<u8>>) -> (bytes: Option<&[u8]>)
    ensures
        crate::protocol::payload_of(bytes) == match data {
            Some(d) => Some(d@),
            None => None,
        },
{
    match data {
        Some(d) => Some(d.as_slice()),
        None => None,
    }
}

impl MockSession {
    #[verifier::type_invariant]
    spec fn well_formed(self) -> bool {
        mock_valid(self@)
    }

    /// A client has connected: its session, and the first action.
    pub fn open() -> (r: (MockSession, MockAction))
        ensures
            r.0@ == mock_opened(),
            r.1@ == MockActionModel::SendAbi,
    {
        (
            MockSession {
                phase: MockPhase::SendingAbi,
                send_credits: 0,
                current_block: None,
                end_block: 0,
                blocks_sent: 0,
                fetch_block: false,
                fetch_traces: false,
                fetch_deltas: false,
            },
            MockAction::SendAbi,
        )
    }

    /// The message that delivers a block.
    fn make_block(&self, config: &MockShipConfig, block: u32) -> (bytes: Vec<u8>)
        ensures
            bytes@ == block_message(self@, *config, block),
    {
        proof {
            reveal(block_message);
        }
        let block_data = make_payload(self.fetch_block, config, block);
        let traces_data = make_payload(self.fetch_traces, config, block.wrapping_add(1000));
        let deltas_data = make_payload(self.fetch_deltas, config, block.wrapping_add(2000));
        encode_blocks_result_v0_with_data(
            config.head_block,
            config.lib_block,
            block,
            as_bytes(&block_data),
            as_bytes(&traces_data),
            as_bytes(&deltas_data),
        )
    }

    /// Sends the block that is due, or waits for the next request.
    fn output(self, config: &MockShipConfig) -> (r: (MockSession, MockAction))
        ensures
            (r.0@, r.1@) == mock_output(self@, *config),
    {
        proof {
            use_type_invariant(&self);
        }
        let due: Option<u32> = match self.current_block {
            Some(block) => {
                if self.send_credits > 0 && block < self.end_block && (config.blocks_to_stream == 0
                    || self.blocks_sent < config.blocks_to_stream) {
                    Some(block)
                } else {
                    None
                }
            },
            None => None,
        };
        match due {
            Some(block) => {
                if let Some(limit) = config.disconnect_after {
                    if self.blocks_sent >= limit {
                        // Simulate upstream failure.
                        return (MockSession { phase: MockPhase::Ended, ..self }, MockAction::End);
                    }
                }
                let bytes = self.make_block(config, block);
                (
                    MockSession { phase: MockPhase::SendingBlock, ..self },
                    MockAction::Send { bytes, delay: config.block_delay },
                )
            },
            None => (MockSession { phase: MockPhase::Reading, ..self }, MockAction::Read),
        }
    }

    /// Answers a request.
    fn answer(self, config: &MockShipConfig, request: ShipRequest) -> (r: (MockSession, MockAction))
        requires
            self@.phase == MockPhase::Reading,
            request is GetStatusV0 || request is GetStatusV1 ==> config.head_block < u32::MAX,
            request matches ShipRequest::GetBlocksAckV0 { num_messages } ==> self@.send_credits
                + num_messages <= u32::MAX,
        ensures
            (r.0@, r.1@) == mock_answer(self@, *config, request),
    {
        proof {
            use_type_invariant(&self);
        }
        match request {
            ShipRequest::GetStatusV0 | ShipRequest::GetStatusV1 => {
                let trace_end: u32 = if config.trace_end_block > 0 {
                    config.trace_end_block
                } else {
                    config.head_block + 1
                };
                let bytes = encode_status_result_v0_with_range(
                    config.head_block,
                    config.lib_block,
                    &config.chain_id,
                    config.trace_begin_block,
                    trace_end,
                );
                (
                    MockSession { phase: MockPhase::SendingStatus, ..self },
                    MockAction::Send { bytes, delay: None },
                )
            },
            ShipRequest::GetBlocksV0 {
                start_block_num,
                end_block_num,
                max_messages_in_flight,
                fetch_block,
                fetch_traces,
                fetch_deltas,
            } => MockSession {
                phase: self.phase,
                send_credits: max_messages_in_flight,
                current_block: Some(start_block_num),
                end_block: end_block_num,
                blocks_sent: 0,
                fetch_block,
                fetch_traces,
                fetch_deltas,
            }.output(config),
            ShipRequest::GetBlocksV1 {
                start_block_num,
                end_block_num,
                max_messages_in_flight,
                fetch_block,
                fetch_traces,
                fetch_deltas,
            } => MockSession {
                phase: self.phase,
                send_credits: max_messages_in_flight,
                current_block: Some(start_block_num),
                end_block: end_block_num,
                blocks_sent: 0,
                fetch_block,
                fetch_traces,
                fetch_deltas,
            }.output(config),
            ShipRequest::GetBlocksAckV0 { num_messages } => {
                let credits: u32 = self.send_credits + num_messages;
                MockSession { send_credits: credits, ..self }.output(config)
            },
            ShipRequest::Unknown(_) => self.output(config),
        }
    }

    /// Whether the session can take in an event.
    pub fn accepts(&self, config: &MockShipConfig, event: &MockEvent) -> (r: bool)
        ensures
            r == mock_accepts(self@, *config, event@),
    {
        match (self.phase, event) {
            (MockPhase::Reading, MockEvent::Received(Frame::Binary(data))) => {
                if !is_decodable(data.as_slice()) {
                    return false;
                }
                match decode_request(data.as_slice()) {
                    ShipRequest::GetStatusV0 | ShipRequest::GetStatusV1 => config.head_block
                        < u32::MAX,
                    ShipRequest::GetBlocksAckV0 { num_messages } => num_messages <= u32::MAX
                        - self.send_credits,
                    _ => true,
                }
            },
            _ => true,
        }
    }

    /// Takes an event and decides what to do next.
    pub fn step(self, config: &MockShipConfig, event: MockEvent) -> (r: (MockSession, MockAction))
        requires
            mock_accepts(self@, *config, event@),
        ensures
            (r.0@, r.1@) == mock_transition(self@, *config, event@),
    {
        proof {
            use_type_invariant(&self);
        }
        match (self.phase, event) {
            (MockPhase::Ended, _) => (self, MockAction::End),
            (MockPhase::Reading, MockEvent::Received(frame)) => match frame {
                Frame::Binary(data) => {
                    let request = decode_request(data.as_slice());
                    self.answer(config, request)
                },
                Frame::Close(_) => (
                    MockSession { phase: MockPhase::Ended, ..self },
                    MockAction::End,
                ),
                _ => self.output(config),
            },
            (MockPhase::Reading, MockEvent::StreamEnded) => (
                MockSession { phase: MockPhase::Ended, ..self },
                MockAction::End,
            ),
            (MockPhase::Reading, _) => (self, MockAction::Ignore),
            (_, MockEvent::SendFailed) => (
                MockSession { phase: MockPhase::Ended, ..self },
                MockAction::End,
            ),
            (MockPhase::SendingAbi, MockEvent::Sent) => self.output(config),
            (MockPhase::SendingStatus, MockEvent::Sent) => self.output(config),
            (MockPhase::SendingBlock, MockEvent::Sent) => match self.current_block {
                Some(block) => {
                    let sent: u32 = self.blocks_sent + 1;
                    let credits: u32 = self.send_credits - 1;
                    MockSession {
                        phase: MockPhase::Reading,
                        send_credits: credits,
                        current_block: Some(block + 1),
                        end_block: self.end_block,
                        blocks_sent: sent,
                        fetch_block: self.fetch_block,
                        fetch_traces: self.fetch_traces,
                        fetch_deltas: self.fetch_deltas,
                    }.output(config)
                },
                None => (self, MockAction::Ignore),
            },
            _ => (self, MockAction::Ignore),
        }
    }
}

// ---------------------------------------------------------------------------
// What holds of every session
// ---------------------------------------------------------------------------

/// The session after a sequence of events, and the actions taken on them.
pub open spec fn mock_run(m: MockModel, config: MockShipConfig, events: Seq<MockEventModel>) -> (
    MockModel,
    Seq<MockActionModel>,
)
    decreases events.len(),
{
    if events.len() == 0 {
        (m, Seq::empty())
    } else {
        let (before, actions) = mock_run(m, config, events.drop_last());
        let (after, action) = mock_transition(before, config, events.last());
        (after, actions.push(action))
    }
}

/// A session that is over stays over.
pub proof fn law_mock_ended_stays_ended(
    m: MockModel,
    config: MockShipConfig,
    event: MockEventModel,
)
    requires
        m.phase == MockPhase::Ended,
    ensures
        mock_transition(m, config, event) == (m, MockActionModel::End),
{
}

/// A block is sent only where the client has given credit for it, and uses it up.
pub proof fn law_mock_flow_control(m: MockModel, config: MockShipConfig)
    requires
        mock_output(m, config).0.phase == MockPhase::SendingBlock,
    ensures
        m.send_credits > 0,
        block_done(mock_output(m, config).0).send_credits == m.send_credits - 1,
{
}

/// Every message that delivers a block carries the number of that block.
pub proof fn law_mock_numbers_blocks(m: MockModel, config: MockShipConfig, block: u32)
    ensures
        crate::frame::block_num(FrameModel::Binary(block_message(m, config, block))) == Some(block),
{
    reveal(block_message);
    crate::frame::law_block_num_of_blocks_result(
        config.head_block,
        config.lib_block,
        block,
        payload(m.fetch_block, config, block),
        payload(m.fetch_traces, config, wrapped(block + 1000)),
        payload(m.fetch_deltas, config, wrapped(block + 2000)),
    );
}

/// How many blocks of a request can be sent: as many as it asks for, as the client gives
/// credit for, and as the configuration allows.
pub open spec fn stream_len(config: MockShipConfig, start: u32, end: u32, credits: int) -> int {
    let asked: int = if start < end {
        end - start
    } else {
        0
    };
    let paid: int = if credits < asked {
        credits
    } else {
        asked
    };
    if config.blocks_to_stream != 0 && config.blocks_to_stream < paid {
        config.blocks_to_stream as int
    } else {
        paid
    }
}

/// How many of them are sent before the simulated failure.
pub open spec fn sent_len(config: MockShipConfig, start: u32, end: u32, credits: int) -> int {
    let len = stream_len(config, start, end, credits);
    match config.disconnect_after {
        Some(limit) => if limit < len {
            limit as int
        } else {
            len
        },
        None => len,
    }
}

/// The session after `k` blocks of a request were sent, with `credits` given in all.
spec fn streamed(requested: MockModel, credits: int, k: int) -> MockModel {
    MockModel {
        phase: MockPhase::Reading,
        send_credits: (credits - k) as u32,
        current_block: Some((requested.current_block->0 + k) as u32),
        blocks_sent: k as u32,
        ..requested
    }
}

/// The messages that deliver `k` blocks, from `start` on.
pub open spec fn block_sends(
    m: MockModel,
    config: MockShipConfig,
    start: u32,
    k: int,
) -> Seq<MockActionModel> {
    Seq::new(
        k as nat,
        |i: int|
            MockActionModel::Send {
                bytes: block_message(m, config, (start + i) as u32),
                delay: config.block_delay,
            },
    )
}

/// A request, then `k` reports that a block was sent.
pub open spec fn stream_events(data: Seq<u8>, k: int) -> Seq<MockEventModel> {
    seq![MockEventModel::Received(FrameModel::Binary(data))] + Seq::new(
        k as nat,
        |i: int| MockEventModel::Sent,
    )
}

proof fn lemma_stream_step(config: MockShipConfig, requested: MockModel, credits: int, k: int)
    requires
        requested.current_block is Some,
        0 <= k < sent_len(config, requested.current_block->0, requested.end_block, credits),
        credits - k <= u32::MAX,
    ensures
        mock_output(streamed(requested, credits, k), config).1 == (MockActionModel::Send {
            bytes: block_message(
                requested,
                config,
                (requested.current_block->0 + k) as u32,
            ),
            delay: config.block_delay,
        }),
        mock_transition(
            mock_output(streamed(requested, credits, k), config).0,
            config,
            MockEventModel::Sent,
        ) == mock_output(streamed(requested, credits, k + 1), config),
{
    let start = requested.current_block->0;
    let before = streamed(requested, credits, k);
    let (sending, action) = mock_output(before, config);
    assert(due_block(before, config) == Some((start + k) as u32));
    assert(!disconnect_due(before, config));
    assert(sending.phase == MockPhase::SendingBlock);
    assert(block_done(sending) == streamed(requested, credits, k + 1));
    assert(block_message(before, config, (start + k) as u32) == block_message(
        requested,
        config,
        (start + k) as u32,
    )) by {
        reveal(block_message);
    }
}

/// From `k0` blocks sent to `k`: one after the other is sent.
proof fn lemma_streaming(
    m: MockModel,
    config: MockShipConfig,
    data: Seq<u8>,
    requested: MockModel,
    credits: int,
    k0: int,
    k: int,
)
    requires
        mock_transition(
            m,
            config,
            MockEventModel::Received(FrameModel::Binary(data)),
        ) == mock_output(streamed(requested, credits, k0), config),
        requested.current_block is Some,
        0 <= k0 <= k <= sent_len(
            config,
            requested.current_block->0,
            requested.end_block,
            credits,
        ),
        credits - k0 <= u32::MAX,
    ensures
        ({
            let (after, action) = mock_output(streamed(requested, credits, k), config);
            mock_run(m, config, stream_events(data, k - k0)) == (
                after,
                block_sends(
                    requested,
                    config,
                    (requested.current_block->0 + k0) as u32,
                    k - k0,
                ).push(action),
            )
        }),
    decreases k,
{
    let from = (requested.current_block->0 + k0) as u32;
    let events = stream_events(data, k - k0);
    if k == k0 {
        assert(events.drop_last() =~= Seq::<MockEventModel>::empty());
        assert(events.last() == MockEventModel::Received(FrameModel::Binary(data)));
        assert(mock_run(m, config, events.drop_last()) == (m, Seq::<MockActionModel>::empty()));
        assert(Seq::<MockActionModel>::empty() =~= block_sends(requested, config, from, 0));
    } else {
        lemma_streaming(m, config, data, requested, credits, k0, k - 1);
        lemma_stream_step(config, requested, credits, k - 1);
        assert(events.drop_last() =~= stream_events(data, k - 1 - k0));
        assert(events.last() == MockEventModel::Sent);
        assert(block_sends(requested, config, from, k - 1 - k0).push(
            mock_output(streamed(requested, credits, k - 1), config).1,
        ) =~= block_sends(requested, config, from, k - k0));
    }
}

/// Whether `data` is a request for the blocks from `start` up to, but without, `end`, with
/// a credit for `credits` of them.
pub open spec fn asks_for(
    data: Seq<u8>,
    start: u32,
    end: u32,
    credits: u32,
    fetch_block: bool,
    fetch_traces: bool,
    fetch_deltas: bool,
) -> bool {
    ||| crate::protocol::request(data) == (ShipRequest::GetBlocksV0 {
        start_block_num: start,
        end_block_num: end,
        max_messages_in_flight: credits,
        fetch_block,
        fetch_traces,
        fetch_deltas,
    })
    ||| crate::protocol::request(data) == (ShipRequest::GetBlocksV1 {
        start_block_num: start,
        end_block_num: end,
        max_messages_in_flight: credits,
        fetch_block,
        fetch_traces,
        fetch_deltas,
    })
}

/// A request for blocks is answered with consecutive blocks from its start on, as many as
/// it asks for and the client gives credit for. Where the configuration says so, the
/// stream stops short, or the connection is dropped.
pub proof fn law_mock_streams_in_order(
    m: MockModel,
    config: MockShipConfig,
    data: Seq<u8>,
    start: u32,
    end: u32,
    credits: u32,
    fetch_block: bool,
    fetch_traces: bool,
    fetch_deltas: bool,
)
    requires
        m.phase == MockPhase::Reading,
        asks_for(data, start, end, credits, fetch_block, fetch_traces, fetch_deltas),
    ensures
        ({
            let requested = blocks_requested(
                m,
                start,
                end,
                credits,
                fetch_block,
                fetch_traces,
                fetch_deltas,
            );
            let sent = sent_len(config, start, end, credits as int);
            mock_run(m, config, stream_events(data, sent)).1 == block_sends(
                requested,
                config,
                start,
                sent,
            ).push(
                if sent < stream_len(config, start, end, credits as int) {
                    MockActionModel::End
                } else {
                    MockActionModel::Read
                },
            )
        }),
        0 <= sent_len(config, start, end, credits as int) <= credits,
{
    let requested = blocks_requested(
        m,
        start,
        end,
        credits,
        fetch_block,
        fetch_traces,
        fetch_deltas,
    );
    let sent = sent_len(config, start, end, credits as int);
    assert(streamed(requested, credits as int, 0) == requested);
    lemma_streaming(m, config, data, requested, credits as int, 0, sent);
}

// ---------------------------------------------------------------------------
// Flow control
// ---------------------------------------------------------------------------

/// The credit that an acknowledgement gives.
pub open spec fn acked(data: Seq<u8>) -> int {
    match crate::protocol::request(data) {
        ShipRequest::GetBlocksAckV0 { num_messages } => num_messages as int,
        _ => 0,
    }
}

/// The credit that a request and the acknowledgements behind it give in all.
pub open spec fn paid(credits: u32, acks: Seq<Seq<u8>>) -> int
    decreases acks.len(),
{
    if acks.len() == 0 {
        credits as int
    } else {
        paid(credits, acks.drop_last()) + acked(acks.last())
    }
}

/// A request and the acknowledgements behind it. Each of them comes when the session waits
/// for it, and every block that it makes due is sent.
pub open spec fn flow_events(
    config: MockShipConfig,
    start: u32,
    end: u32,
    credits: u32,
    data: Seq<u8>,
    acks: Seq<Seq<u8>>,
) -> Seq<MockEventModel>
    decreases acks.len(),
{
    if acks.len() == 0 {
        stream_events(data, sent_len(config, start, end, credits as int))
    } else {
        let earlier = acks.drop_last();
        flow_events(config, start, end, credits, data, earlier) + stream_events(
            acks.last(),
            sent_len(config, start, end, paid(credits, acks)) - sent_len(
                config,
                start,
                end,
                paid(credits, earlier),
            ),
        )
    }
}

/// The credit that is not used up can be counted at every acknowledgement.
pub open spec fn credit_countable(
    config: MockShipConfig,
    start: u32,
    end: u32,
    credits: u32,
    acks: Seq<Seq<u8>>,
) -> bool
    decreases acks.len(),
{
    acks.len() > 0 ==> {
        let earlier = acks.drop_last();
        &&& credit_countable(config, start, end, credits, earlier)
        &&& paid(credits, acks) - sent_len(config, start, end, paid(credits, earlier)) <= u32::MAX
    }
}

/// The actions that send something.
pub open spec fn sends(actions: Seq<MockActionModel>) -> Seq<MockActionModel> {
    actions.filter(|a: MockActionModel| a is Send)
}

proof fn lemma_sends(
    m: MockModel,
    config: MockShipConfig,
    start: u32,
    k: int,
    last: MockActionModel,
)
    requires
        0 <= k,
        last !is Send,
    ensures
        sends(block_sends(m, config, start, k).push(last)) == block_sends(m, config, start, k),
        sends(block_sends(m, config, start, k)) == block_sends(m, config, start, k),
    decreases k,
{
    reveal(Seq::filter);
    let all = block_sends(m, config, start, k);
    if k > 0 {
        lemma_sends(m, config, start, k - 1, last);
        assert(all.drop_last() =~= block_sends(m, config, start, k - 1));
        assert(all =~= block_sends(m, config, start, k - 1).push(all.last()));
    }
    assert(sends(all) =~= all);
    assert(all.push(last).drop_last() =~= all);
}

proof fn lemma_mock_run_concat(
    m: MockModel,
    config: MockShipConfig,
    first: Seq<MockEventModel>,
    second: Seq<MockEventModel>,
)
    ensures
        ({
            let (middle, actions) = mock_run(m, config, first);
            let (after, more) = mock_run(middle, config, second);
            mock_run(m, config, first + second) == (after, actions + more)
        }),
    decreases second.len(),
{
    let (middle, actions) = mock_run(m, config, first);
    if second.len() == 0 {
        assert(first + second =~= first);
        assert(actions + Seq::<MockActionModel>::empty() =~= actions);
    } else {
        lemma_mock_run_concat(m, config, first, second.drop_last());
        assert((first + second).drop_last() =~= first + second.drop_last());
        let (before, more) = mock_run(middle, config, second.drop_last());
        let action = mock_transition(before, config, second.last()).1;
        assert((actions + more).push(action) =~= actions + more.push(action));
    }
}

proof fn lemma_paid(credits: u32, acks: Seq<Seq<u8>>)
    ensures
        paid(credits, acks) >= credits,
    decreases acks.len(),
{
    if acks.len() > 0 {
        lemma_paid(credits, acks.drop_last());
    }
}

/// Where all blocks that are due were sent, the session waits, or has been dropped.
proof fn lemma_settled(config: MockShipConfig, requested: MockModel, credits: int)
    requires
        requested.current_block is Some,
        0 <= credits,
        credits - sent_len(
            config,
            requested.current_block->0,
            requested.end_block,
            credits,
        ) <= u32::MAX,
    ensures
        ({
            let start = requested.current_block->0;
            let sent = sent_len(config, start, requested.end_block, credits);
            let settled = streamed(requested, credits, sent);
            mock_output(settled, config) == if sent < stream_len(
                config,
                start,
                requested.end_block,
                credits,
            ) {
                (MockModel { phase: MockPhase::Ended, ..settled }, MockActionModel::End)
            } else {
                (settled, MockActionModel::Read)
            }
        }),
{
}

/// An acknowledgement on a session that waits adds to its credit.
proof fn lemma_ack(
    config: MockShipConfig,
    requested: MockModel,
    credits: int,
    k: int,
    ack: Seq<u8>,
)
    requires
        crate::protocol::request(ack) is GetBlocksAckV0,
        0 <= k <= credits,
        credits + acked(ack) - k <= u32::MAX,
    ensures
        mock_transition(
            streamed(requested, credits, k),
            config,
            MockEventModel::Received(FrameModel::Binary(ack)),
        ) == mock_output(streamed(requested, credits + acked(ack), k), config),
{
}

/// One acknowledgement more.
proof fn lemma_flow_stage(
    s: MockModel,
    config: MockShipConfig,
    requested: MockModel,
    credits: int,
    ack: Seq<u8>,
)
    requires
        requested.current_block is Some,
        crate::protocol::request(ack) is GetBlocksAckV0,
        0 <= credits,
        credits + acked(ack) - sent_len(
            config,
            requested.current_block->0,
            requested.end_block,
            credits,
        ) <= u32::MAX,
        ({
            let start = requested.current_block->0;
            let sent = sent_len(config, start, requested.end_block, credits);
            if sent < stream_len(config, start, requested.end_block, credits) {
                s.phase == MockPhase::Ended
            } else {
                s == streamed(requested, credits, sent)
            }
        }),
    ensures
        ({
            let start = requested.current_block->0;
            let end = requested.end_block;
            let sent = sent_len(config, start, end, credits);
            let more = sent_len(config, start, end, credits + acked(ack));
            let (t, actions) = mock_run(s, config, stream_events(ack, more - sent));
            &&& sent <= more
            &&& sends(actions) == block_sends(
                requested,
                config,
                (start + sent) as u32,
                more - sent,
            )
            &&& if more < stream_len(config, start, end, credits + acked(ack)) {
                t.phase == MockPhase::Ended
            } else {
                t == streamed(requested, credits + acked(ack), more)
            }
        }),
{
    let start = requested.current_block->0;
    let end = requested.end_block;
    let sent = sent_len(config, start, end, credits);
    let total = credits + acked(ack);
    let more = sent_len(config, start, end, total);
    let from = (start + sent) as u32;
    if sent < stream_len(config, start, end, credits) {
        assert(more == sent);
        let events = stream_events(ack, 0);
        assert(events.drop_last() =~= Seq::<MockEventModel>::empty());
        assert(mock_run(s, config, events.drop_last()) == (s, Seq::<MockActionModel>::empty()));
        assert(mock_transition(s, config, events.last()).1 == MockActionModel::End);
        assert(mock_run(s, config, events).1 =~= block_sends(requested, config, from, 0).push(
            MockActionModel::End,
        ));
        lemma_sends(requested, config, from, 0, MockActionModel::End);
    } else {
        lemma_ack(config, requested, credits, sent, ack);
        lemma_streaming(s, config, ack, requested, total, sent, more);
        lemma_settled(config, requested, total);
        let last = mock_output(streamed(requested, total, more), config).1;
        lemma_sends(requested, config, from, more - sent, last);
    }
}

proof fn lemma_flow(
    m: MockModel,
    config: MockShipConfig,
    data: Seq<u8>,
    acks: Seq<Seq<u8>>,
    requested: MockModel,
    credits: u32,
)
    requires
        requested.current_block is Some,
        streamed(requested, credits as int, 0) == requested,
        mock_transition(
            m,
            config,
            MockEventModel::Received(FrameModel::Binary(data)),
        ) == mock_output(requested, config),
        forall|i: int|
            0 <= i < acks.len() ==> crate::protocol::request(
                #[trigger] acks[i],
            ) is GetBlocksAckV0,
        credit_countable(config, requested.current_block->0, requested.end_block, credits, acks),
    ensures
        ({
            let start = requested.current_block->0;
            let end = requested.end_block;
            let sent = sent_len(config, start, end, paid(credits, acks));
            let (s, actions) = mock_run(
                m,
                config,
                flow_events(config, start, end, credits, data, acks),
            );
            &&& sends(actions) == block_sends(requested, config, start, sent)
            &&& if sent < stream_len(config, start, end, paid(credits, acks)) {
                s.phase == MockPhase::Ended
            } else {
                s == streamed(requested, paid(credits, acks), sent)
            }
        }),
    decreases acks.len(),
{
    let start = requested.current_block->0;
    let end = requested.end_block;
    if acks.len() == 0 {
        let sent = sent_len(config, start, end, credits as int);
        lemma_streaming(m, config, data, requested, credits as int, 0, sent);
        lemma_settled(config, requested, credits as int);
        let last = mock_output(streamed(requested, credits as int, sent), config).1;
        assert((start + 0) as u32 == start);
        lemma_sends(requested, config, start, sent, last);
    } else {
        let earlier = acks.drop_last();
        let ack = acks.last();
        assert forall|i: int| 0 <= i < earlier.len() implies crate::protocol::request(
            #[trigger] earlier[i],
        ) is GetBlocksAckV0 by {
            assert(earlier[i] == acks[i]);
        }
        assert(crate::protocol::request(acks[acks.len() - 1]) is GetBlocksAckV0);
        lemma_flow(m, config, data, earlier, requested, credits);
        lemma_paid(credits, earlier);
        let before = paid(credits, earlier);
        let sent = sent_len(config, start, end, before);
        let more = sent_len(config, start, end, paid(credits, acks));
        let first = flow_events(config, start, end, credits, data, earlier);
        let (s, actions) = mock_run(m, config, first);
        lemma_flow_stage(s, config, requested, before, ack);
        let second = stream_events(ack, more - sent);
        lemma_mock_run_concat(m, config, first, second);
        let added = mock_run(s, config, second).1;
        Seq::filter_distributes_over_add(actions, added, |a: MockActionModel| a is Send);
        assert(sends(actions + added) == sends(actions) + sends(added));
        let from = (start + sent) as u32;
        assert(block_sends(requested, config, start, sent) + block_sends(
            requested,
            config,
            from,
            more - sent,
        ) =~= block_sends(requested, config, start, more));
    }
}

/// Flow control: for a request for blocks and any acknowledgements behind it, the server
/// sends consecutive blocks from the start of the request on, and as many as the request
/// and the acknowledgements give credit for, as it asks for, and as the configuration
/// allows.
pub proof fn law_mock_flow_control_with_acks(
    m: MockModel,
    config: MockShipConfig,
    data: Seq<u8>,
    acks: Seq<Seq<u8>>,
    start: u32,
    end: u32,
    credits: u32,
    fetch_block: bool,
    fetch_traces: bool,
    fetch_deltas: bool,
)
    requires
        m.phase == MockPhase::Reading,
        asks_for(data, start, end, credits, fetch_block, fetch_traces, fetch_deltas),
        forall|i: int|
            0 <= i < acks.len() ==> crate::protocol::request(
                #[trigger] acks[i],
            ) is GetBlocksAckV0,
        credit_countable(config, start, end, credits, acks),
    ensures
        ({
            let requested = blocks_requested(
                m,
                start,
                end,
                credits,
                fetch_block,
                fetch_traces,
                fetch_deltas,
            );
            let sent = sent_len(config, start, end, paid(credits, acks));
            let (s, actions) = mock_run(
                m,
                config,
                flow_events(config, start, end, credits, data, acks),
            );
            &&& 0 <= sent <= paid(credits, acks)
            &&& sends(actions) == block_sends(requested, config, start, sent)
            &&& s.phase == if sent < stream_len(config, start, end, paid(credits, acks)) {
                MockPhase::Ended
            } else {
                MockPhase::Reading
            }
        }),
{
    let requested = blocks_requested(
        m,
        start,
        end,
        credits,
        fetch_block,
        fetch_traces,
        fetch_deltas,
    );
    assert(streamed(requested, credits as int, 0) == requested);
    lemma_flow(m, config, data, acks, requested, credits);
    lemma_paid(credits, acks);
}

/// The frames that deliver `k` blocks, from `start` on.
pub open spec fn block_frames(
    m: MockModel,
    config: MockShipConfig,
    start: u32,
    k: int,
) -> Seq<FrameModel> {
    Seq::new(
        k as nat,
        |i: int| FrameModel::Binary(block_message(m, config, (start + i) as u32)),
    )
}

proof fn lemma_none_kept(frames: Seq<FrameModel>, kept: spec_fn(FrameModel) -> bool)
    requires
        forall|i: int| 0 <= i < frames.len() ==> !kept(#[trigger] frames[i]),
    ensures
        frames.filter(kept) == Seq::<FrameModel>::empty(),
    decreases frames.len(),
{
    reveal(Seq::filter);
    if frames.len() > 0 {
        assert(!kept(frames[frames.len() - 1]));
        lemma_none_kept(frames.drop_last(), kept);
    }
}

/// A client of the router is sent the blocks that a server streams, each once and in
/// order; after a failover with the last block seen being `seen`, exactly those behind it.
pub proof fn law_proxied_blocks_in_order(
    m: MockModel,
    config: MockShipConfig,
    start: u32,
    k: int,
    session: crate::session::Session,
    link: crate::client_link::LinkModel,
    seen: u32,
)
    requires
        0 <= k,
        start + k <= u32::MAX,
        session.phase == crate::session::Phase::Reading,
    ensures
        crate::session::consecutive_blocks(block_frames(m, config, start, k), start),
        !session.restarting ==> crate::session::relay_all(
            session,
            link,
            block_frames(m, config, start, k),
        ) == block_frames(m, config, start, k),
        session.restarting && session.last_seen_block == Some(seen) && start <= seen + 1 <= start
            + k ==> crate::session::relay_all(session, link, block_frames(m, config, start, k))
            == block_frames(m, config, (seen + 1) as u32, start + k - (seen + 1)),
{
    let frames = block_frames(m, config, start, k);
    assert forall|i: int| 0 <= i < frames.len() implies start + i <= u32::MAX
        && crate::frame::block_num(#[trigger] frames[i]) == Some((start + i) as u32) by {
        law_mock_numbers_blocks(m, config, (start + i) as u32);
    }
    if !session.restarting {
        crate::session::law_relays_everything(session, link, frames);
    }
    if session.restarting && session.last_seen_block == Some(seen) && start <= seen + 1 <= start
        + k {
        crate::session::law_only_replayed_blocks_left_out(session, link, frames, seen);
        let at = crate::session::first_behind(frames, seen);
        let kept = |f: FrameModel| !crate::session::is_replayed(f, seen);
        if at > 0 {
            assert(!crate::session::is_behind(frames[at - 1], seen));
        }
        if seen + 1 - start < at {
            assert(!crate::session::is_behind(frames[seen + 1 - start], seen));
        }
        assert(at == seen + 1 - start);
        assert forall|i: int| 0 <= i < at implies !kept(#[trigger] frames.take(at)[i]) by {
            assert(frames.take(at)[i] == frames[i]);
        }
        lemma_none_kept(frames.take(at), kept);
        let rest = block_frames(m, config, (seen + 1) as u32, start + k - (seen + 1));
        assert(frames.skip(at) =~= rest);
    }
}

// ---------------------------------------------------------------------------
// What each event brings
// ---------------------------------------------------------------------------

/// The message of a block is a blocks result with the head and the last irreversible block
/// of the configuration, for that block. It holds the data, the traces and the deltas that
/// the client asked for, each where it asked for it and the configuration gives it a size.
pub proof fn law_block_message(m: MockModel, config: MockShipConfig, block: u32)
    ensures
        ({
            let size = config.block_data_size as nat;
            let data = |wanted: bool, seed: int|
                if wanted && size > 0 {
                    Some(crate::protocol::fake_data((seed % 0x1_0000_0000) as u32, size))
                } else {
                    None
                };
            block_message(m, config, block) == crate::protocol::blocks_result(
                config.head_block,
                config.lib_block,
                block,
                data(m.fetch_block, block as int),
                data(m.fetch_traces, block + 1000),
                data(m.fetch_deltas, block + 2000),
            )
        }),
{
    reveal(block_message);
    assert(block as int % 0x1_0000_0000 == block);
}

/// A request for blocks replaces the one before it: it starts anew, with the range, the
/// credit and the wishes of this request, and no block of it was sent yet.
pub proof fn law_request_replaces(
    m: MockModel,
    start: u32,
    end: u32,
    credits: u32,
    fetch_block: bool,
    fetch_traces: bool,
    fetch_deltas: bool,
)
    ensures
        ({
            let r = blocks_requested(
                m,
                start,
                end,
                credits,
                fetch_block,
                fetch_traces,
                fetch_deltas,
            );
            &&& r.current_block == Some(start)
            &&& r.end_block == end
            &&& r.send_credits == credits
            &&& r.blocks_sent == 0
            &&& r.fetch_block == fetch_block
            &&& r.fetch_traces == fetch_traces
            &&& r.fetch_deltas == fetch_deltas
            &&& r.phase == m.phase
        }),
{
}

/// How many blocks are sent: as many as the client gives credit for, as the request asks
/// for, and as the configuration streams, whichever is least; and no more than it sends
/// before it drops the connection.
pub proof fn law_stream_len(config: MockShipConfig, start: u32, end: u32, credits: int)
    requires
        0 <= credits,
    ensures
        ({
            let n = stream_len(config, start, end, credits);
            let s = sent_len(config, start, end, credits);
            &&& 0 <= n <= credits
            &&& n > 0 ==> start + n <= end
            &&& config.blocks_to_stream > 0 ==> n <= config.blocks_to_stream
            &&& n == credits || start + n >= end || (config.blocks_to_stream > 0 && n
                == config.blocks_to_stream)
            &&& 0 <= s <= n
            &&& config.disconnect_after is None ==> s == n
            &&& config.disconnect_after matches Some(limit) ==> s <= limit && (s == n || s == limit)
        }),
{
}

/// What a session does when it has nothing else to answer. It sends the next block of the
/// request where one is left, the client has given credit for it and the configuration
/// streams it, unless the connection is to be dropped before it; otherwise it waits. Only
/// its phase changes.
pub proof fn law_mock_goes_on(m: MockModel, config: MockShipConfig)
    ensures
        ({
            let (after, action) = mock_output(m, config);
            let due = m.current_block is Some && m.current_block->0 < m.end_block && m.send_credits
                > 0 && (config.blocks_to_stream == 0 || m.blocks_sent < config.blocks_to_stream);
            let drop = config.disconnect_after matches Some(limit) && m.blocks_sent >= limit;
            &&& !due ==> after == (MockModel { phase: MockPhase::Reading, ..m }) && action
                == MockActionModel::Read
            &&& due && drop ==> after == (MockModel { phase: MockPhase::Ended, ..m }) && action
                == MockActionModel::End
            &&& due && !drop ==> after == (MockModel { phase: MockPhase::SendingBlock, ..m })
                && action == (MockActionModel::Send {
                bytes: block_message(m, config, m.current_block->0),
                delay: config.block_delay,
            })
        }),
{
}

/// A new session has no request yet, and waits for one once its ABI was sent.
pub proof fn law_mock_opens(config: MockShipConfig)
    ensures
        mock_opened().phase == MockPhase::SendingAbi,
        mock_opened().current_block is None,
        mock_opened().send_credits == 0,
        mock_opened().blocks_sent == 0,
        mock_transition(mock_opened(), config, MockEventModel::Sent) == (
            MockModel { phase: MockPhase::Reading, ..mock_opened() },
            MockActionModel::Read,
        ),
{
}

/// A status request of either version is answered with the status of the configuration, and
/// at once. Where the configuration leaves the end of the traces open, it is that of the
/// head. The request for blocks that is under way goes on behind it as it stood.
pub proof fn law_mock_answers_status(m: MockModel, config: MockShipConfig, data: Seq<u8>)
    requires
        m.phase == MockPhase::Reading,
        crate::protocol::request(data) is GetStatusV0 || crate::protocol::request(
            data,
        ) is GetStatusV1,
    ensures
        ({
            let (after, action) = mock_transition(
                m,
                config,
                MockEventModel::Received(FrameModel::Binary(data)),
            );
            &&& after == (MockModel { phase: MockPhase::SendingStatus, ..m })
            &&& action == (MockActionModel::Send {
                bytes: crate::protocol::status_result(
                    config.head_block,
                    config.lib_block,
                    config.chain_id@,
                    config.trace_begin_block,
                    if config.trace_end_block == 0 {
                        (config.head_block + 1) as u32
                    } else {
                        config.trace_end_block
                    },
                ),
                delay: None,
            })
            &&& mock_transition(after, config, MockEventModel::Sent) == mock_output(m, config)
        }),
{
    let after = MockModel { phase: MockPhase::SendingStatus, ..m };
    assert(MockModel { phase: MockPhase::Reading, ..after } == MockModel {
        phase: MockPhase::Reading,
        ..m
    });
    if let Some(block) = due_block(m, config) {
        assert(block_message(after, config, block) == block_message(m, config, block)) by {
            reveal(block_message);
        }
    }
}

/// A request for blocks, of either version, is taken up from its first block on.
pub proof fn law_mock_takes_up_request(
    m: MockModel,
    config: MockShipConfig,
    data: Seq<u8>,
    start: u32,
    end: u32,
    credits: u32,
    fetch_block: bool,
    fetch_traces: bool,
    fetch_deltas: bool,
)
    requires
        m.phase == MockPhase::Reading,
        ({
            ||| crate::protocol::request(data) == (ShipRequest::GetBlocksV0 {
                start_block_num: start,
                end_block_num: end,
                max_messages_in_flight: credits,
                fetch_block,
                fetch_traces,
                fetch_deltas,
            })
            ||| crate::protocol::request(data) == (ShipRequest::GetBlocksV1 {
                start_block_num: start,
                end_block_num: end,
                max_messages_in_flight: credits,
                fetch_block,
                fetch_traces,
                fetch_deltas,
            })
        }),
    ensures
        mock_transition(m, config, MockEventModel::Received(FrameModel::Binary(data)))
            == mock_output(
            MockModel {
                phase: MockPhase::Reading,
                send_credits: credits,
                current_block: Some(start),
                end_block: end,
                blocks_sent: 0,
                fetch_block,
                fetch_traces,
                fetch_deltas,
            },
            config,
        ),
{
}

/// An acknowledgement adds to the credit and changes nothing else. What the server does not
/// know, and what is no binary frame, changes nothing.
pub proof fn law_mock_credit_and_noise(m: MockModel, config: MockShipConfig, frame: FrameModel)
    requires
        m.phase == MockPhase::Reading,
    ensures
        ({
            let received = mock_transition(m, config, MockEventModel::Received(frame));
            match frame {
                FrameModel::Binary(data) => match crate::protocol::request(data) {
                    ShipRequest::GetBlocksAckV0 { num_messages } => m.send_credits + num_messages
                        <= u32::MAX ==> received == mock_output(
                        MockModel { send_credits: (m.send_credits + num_messages) as u32, ..m },
                        config,
                    ),
                    ShipRequest::Unknown(_) => received == mock_output(m, config),
                    _ => true,
                },
                FrameModel::Close(_) => received == (
                    MockModel { phase: MockPhase::Ended, ..m },
                    MockActionModel::End,
                ),
                _ => received == mock_output(m, config),
            }
        }),
{
}

/// A block that was sent uses up one credit, and the next block of the request follows it.
pub proof fn law_mock_block_sent(m: MockModel, config: MockShipConfig)
    requires
        mock_valid(m),
        m.phase == MockPhase::SendingBlock,
    ensures
        mock_transition(m, config, MockEventModel::Sent) == mock_output(
            MockModel {
                phase: MockPhase::Reading,
                send_credits: (m.send_credits - 1) as u32,
                current_block: Some((m.current_block->0 + 1) as u32),
                blocks_sent: (m.blocks_sent + 1) as u32,
                ..m
            },
            config,
        ),
{
}

/// A session ends where its client goes away or cannot be sent what is on its way.
pub proof fn law_mock_ends(m: MockModel, config: MockShipConfig)
    requires
        m.phase != MockPhase::Ended,
    ensures
        m.phase == MockPhase::Reading ==> mock_transition(m, config, MockEventModel::StreamEnded)
            == (MockModel { phase: MockPhase::Ended, ..m }, MockActionModel::End),
        m.phase != MockPhase::Reading ==> mock_transition(m, config, MockEventModel::SendFailed)
            == (MockModel { phase: MockPhase::Ended, ..m }, MockActionModel::End),
{
}

/// Events that a session does not wait for change nothing.
pub proof fn law_mock_other_events_ignored(
    m: MockModel,
    config: MockShipConfig,
    event: MockEventModel,
)
    requires
        m.phase != MockPhase::Ended,
        if m.phase == MockPhase::Reading {
            event is Sent || event is SendFailed
        } else {
            event is Received || event is StreamEnded
        },
    ensures
        mock_transition(m, config, event) == (m, MockActionModel::Ignore),
{
}

/// What a session cannot take in, and nothing else: while it waits for a request, one that
/// cannot be decoded, a status request at the highest block number of all, and credit beyond
/// what can be counted.
pub proof fn law_mock_refusals(m: MockModel, config: MockShipConfig, event: MockEventModel)
    ensures
        !mock_accepts(m, config, event) <==> m.phase == MockPhase::Reading && match event {
            MockEventModel::Received(FrameModel::Binary(data)) => {
                ||| !crate::protocol::decodable(data)
                ||| config.head_block == u32::MAX && (crate::protocol::request(data) is GetStatusV0
                    || crate::protocol::request(data) is GetStatusV1)
                ||| crate::protocol::request(data) matches ShipRequest::GetBlocksAckV0 {
                    num_messages,
                } && m.send_credits + num_messages > u32::MAX
            },
            _ => false,
        },
{
}

} // verus!
