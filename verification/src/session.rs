//! A client session: the ABI handshake, relaying what the upstream sends, and failover.
//!
//! The session decides; whoever runs it performs each `Action` and reports what came of
//! it as the next `Event`.

use vstd::prelude::*;

use crate::abi::AbiContext;
use crate::client_link::{ClientLink, LinkModel};
use crate::frame::{extract_block_num, Frame, FrameModel};

verus! {

/// How many upstreams are tried before a session gives up.
pub const MAX_ATTEMPTS: u32 = 3;

/// The pause, in milliseconds, between a new upstream and the replay of the request.
pub const SWAP_PAUSE_MS: u64 = 100;

/// The WebSocket close code of an unexpected condition.
pub const CLOSE_ERROR: u16 = 1011;

/// The WebSocket close code of an endpoint that goes away.
pub const CLOSE_AWAY: u16 = 1001;

pub const REASON_NO_UPSTREAM: &'static str = "No upstream server available";

pub const REASON_NO_FAILOVER: &'static str = "no upstream available";

pub const REASON_SHUTDOWN: &'static str = "server shutting down";

/// Where a session stands.
#[derive(Debug, Clone, Copy, PartialEq, Eq)]
pub enum Phase {
    /// The first upstream is being connected.
    Opening,
    /// The ABI is on its way to the client.
    SendingAbi,
    /// The next frame of the upstream is awaited.
    Reading,
    /// A frame of the upstream is on its way to the client.
    Forwarding,
    /// The upstream is lost; another one is being connected.
    FailingOver,
    /// The new upstream is in place; its request is about to be replayed.
    Pausing,
    /// The request is on its way to the new upstream.
    Replaying,
    /// A buffered client frame is on its way to the new upstream.
    Flushing,
    /// The session is over.
    Ended,
}

/// The state of a session.
#[derive(Debug, Clone, Copy, PartialEq, Eq)]
pub struct Session {
    pub phase: Phase,
    /// Whether the upstream is replaying blocks that the client may have.
    pub restarting: bool,
    /// The last block that was sent to the client.
    pub last_seen_block: Option<u32>,
}

/// What happened.
#[derive(Debug)]
pub enum Event {
    /// An upstream is connected and has sent its ABI, which was checked.
    UpstreamReady { abi: String, accepted: bool },
    /// No upstream could be connected.
    NoUpstream,
    /// What was to be sent has been sent.
    Sent,
    /// What was to be sent could not be sent.
    SendFailed,
    /// The upstream sent a frame. A close frame is its end.
    Upstream(Frame),
    /// The upstream's stream ended or failed, or has been silent for too long.
    UpstreamEnded,
    /// The client's stream ended or failed, or the connection is idle.
    ClientGone,
    /// The process shuts down.
    Shutdown,
    /// The pause is over.
    PauseOver,
}

/// What to do next.
#[derive(Debug)]
pub enum Action {
    /// Connect an upstream that has the requested block, in up to `MAX_ATTEMPTS` attempts.
    Establish { requested_block: Option<u32> },
    /// Send the ABI to the client, as a text frame.
    SendAbi(String),
    /// Wait for the upstream, the client's end or the shutdown.
    Read,
    /// Send a frame to the client.
    ToClient(Frame),
    /// Put the new upstream in the place of the lost one, and pause for `SWAP_PAUSE_MS`.
    SwapAndPause,
    /// Send a frame to the upstream.
    ToUpstream(Frame),
    /// Close the client's connection with this code and reason; the session is over.
    CloseClient { code: u16, reason: &'static str },
    /// Drop the connections; the session is over.
    End,
    /// Go on with what is being done: the event does not concern it.
    Ignore,
}

/// The model of an `Event`.
pub enum EventModel {
    UpstreamReady { abi: Seq<char>, accepted: bool },
    NoUpstream,
    Sent,
    SendFailed,
    Upstream(FrameModel),
    UpstreamEnded,
    ClientGone,
    Shutdown,
    PauseOver,
}

/// The model of an `Action`.
pub enum ActionModel {
    Establish { requested_block: Option<u32> },
    SendAbi(Seq<char>),
    Read,
    ToClient(FrameModel),
    SwapAndPause,
    ToUpstream(FrameModel),
    CloseClient { code: u16, reason: Seq<char> },
    End,
    Ignore,
}

impl View for Event {
    type V = EventModel;

    open spec fn view(&self) -> EventModel {
        match self {
            Event::UpstreamReady { abi, accepted } => EventModel::UpstreamReady {
                abi: abi@,
                accepted: *accepted,
            },
            Event::NoUpstream => EventModel::NoUpstream,
            Event::Sent => EventModel::Sent,
            Event::SendFailed => EventModel::SendFailed,
            Event::Upstream(frame) => EventModel::Upstream(frame@),
            Event::UpstreamEnded => EventModel::UpstreamEnded,
            Event::ClientGone => EventModel::ClientGone,
            Event::Shutdown => EventModel::Shutdown,
            Event::PauseOver => EventModel::PauseOver,
        }
    }
}

impl View for Action {
    type V = ActionModel;

    open spec fn view(&self) -> ActionModel {
        match self {
            Action::Establish { requested_block } => ActionModel::Establish {
                requested_block: *requested_block,
            },
            Action::SendAbi(abi) => ActionModel::SendAbi(abi@),
            Action::Read => ActionModel::Read,
            Action::ToClient(frame) => ActionModel::ToClient(frame@),
            Action::SwapAndPause => ActionModel::SwapAndPause,
            Action::ToUpstream(frame) => ActionModel::ToUpstream(frame@),
            Action::CloseClient { code, reason } => ActionModel::CloseClient {
                code: *code,
                reason: reason@,
            },
            Action::End => ActionModel::End,
            Action::Ignore => ActionModel::Ignore,
        }
    }
}

// ---------------------------------------------------------------------------
// Relaying
// ---------------------------------------------------------------------------

/// The first block that the client has not been sent.
pub open spec fn expected_block(last_seen_block: Option<u32>) -> u32 {
    match last_seen_block {
        Some(block) => crate::client_link::next_block(block),
        None => 0,
    }
}

/// Whether a frame is a block that the client already has: during failover, a block
/// before the expected one.
pub open spec fn duplicate(session: Session, frame: FrameModel) -> bool {
    match crate::frame::block_num(frame) {
        Some(block) => session.restarting && block < expected_block(session.last_seen_block),
        None => false,
    }
}

/// The session once a frame is handed to the client. A block ends the replay and is the
/// last one seen.
pub open spec fn after_forward(session: Session, frame: FrameModel) -> Session {
    match crate::frame::block_num(frame) {
        Some(block) => Session {
            phase: Phase::Forwarding,
            restarting: false,
            last_seen_block: Some(block),
        },
        None => Session { phase: Phase::Forwarding, ..session },
    }
}

// ---------------------------------------------------------------------------
// Transitions
// ---------------------------------------------------------------------------

/// The session in another phase.
pub open spec fn in_phase(session: Session, phase: Phase) -> Session {
    Session { phase, ..session }
}

/// The frames that wait are sent one after the other; then the new upstream is relayed.
/// Each goes on waiting until it is known to have been sent.
pub open spec fn flush(session: Session, link: LinkModel) -> (Session, LinkModel, ActionModel) {
    if link.pending.len() > 0 {
        (
            in_phase(session, Phase::Flushing),
            link,
            ActionModel::ToUpstream(link.pending[0]),
        )
    } else {
        caught_up(session, link)
    }
}

/// The new upstream is relayed; it replays blocks that the client may have.
pub open spec fn caught_up(session: Session, link: LinkModel) -> (
    Session,
    LinkModel,
    ActionModel,
) {
    (Session { phase: Phase::Reading, restarting: true, ..session }, link, ActionModel::Read)
}

/// The upstream is lost: another one is looked for, with the block at which the client's
/// request resumes.
pub open spec fn fail_over(session: Session, link: LinkModel) -> (
    Session,
    LinkModel,
    ActionModel,
) {
    let resumed = link.resumed(session.last_seen_block);
    (
        in_phase(session, Phase::FailingOver),
        resumed,
        ActionModel::Establish { requested_block: resumed.start_block() },
    )
}

/// Closing the client's connection ends the session.
pub open spec fn close(
    session: Session,
    link: LinkModel,
    code: u16,
    reason: Seq<char>,
) -> (Session, LinkModel, ActionModel) {
    (in_phase(session, Phase::Ended), link, ActionModel::CloseClient { code, reason })
}

/// The session ends without a word.
pub open spec fn end(session: Session, link: LinkModel) -> (Session, LinkModel, ActionModel) {
    (in_phase(session, Phase::Ended), link, ActionModel::End)
}

/// The state and the action after an event.
pub open spec fn transition(session: Session, link: LinkModel, event: EventModel) -> (
    Session,
    LinkModel,
    ActionModel,
) {
    match (session.phase, event) {
        (Phase::Ended, _) => end(session, link),
        // The first upstream.
        (Phase::Opening, EventModel::UpstreamReady { abi, accepted }) => if accepted {
            (in_phase(session, Phase::SendingAbi), link, ActionModel::SendAbi(abi))
        } else {
            end(session, link)
        },
        (Phase::Opening, EventModel::NoUpstream) => close(
            session,
            link,
            CLOSE_ERROR,
            REASON_NO_UPSTREAM@,
        ),
        (Phase::SendingAbi, EventModel::Sent) => (
            in_phase(session, Phase::Reading),
            link,
            ActionModel::Read,
        ),
        (Phase::SendingAbi, EventModel::SendFailed) => end(session, link),
        // Relaying, without the blocks that the client already has.
        (Phase::Reading, EventModel::Upstream(frame)) => if frame is Close {
            fail_over(session, link)
        } else if duplicate(session, frame) {
            (session, link, ActionModel::Read)
        } else {
            (after_forward(session, frame), link, ActionModel::ToClient(frame))
        },
        (Phase::Reading, EventModel::ClientGone) => end(session, link),
        (Phase::Reading, EventModel::Shutdown) => close(
            session,
            link,
            CLOSE_AWAY,
            REASON_SHUTDOWN@,
        ),
        (Phase::Reading, EventModel::UpstreamEnded) => fail_over(session, link),
        (Phase::Forwarding, EventModel::Sent) => (
            in_phase(session, Phase::Reading),
            link,
            ActionModel::Read,
        ),
        (Phase::Forwarding, EventModel::SendFailed) => end(session, link),
        // Failover.
        (Phase::FailingOver, EventModel::UpstreamReady { abi, accepted }) => if accepted {
            (in_phase(session, Phase::Pausing), link, ActionModel::SwapAndPause)
        } else {
            end(session, link)
        },
        (Phase::FailingOver, EventModel::NoUpstream) => close(
            session,
            link,
            CLOSE_ERROR,
            REASON_NO_FAILOVER@,
        ),
        (Phase::Pausing, EventModel::PauseOver) => match link.last_request {
            Some(request) => (
                in_phase(session, Phase::Replaying),
                link,
                ActionModel::ToUpstream(FrameModel::Binary(request)),
            ),
            None => flush(session, link),
        },
        (Phase::Replaying, EventModel::Sent) => flush(session, link),
        (Phase::Replaying, EventModel::SendFailed) => fail_over(session, link),
        (Phase::Flushing, EventModel::Sent) => flush(session, link.popped()),
        (Phase::Flushing, EventModel::SendFailed) => caught_up(session, link),
        _ => (session, link, ActionModel::Ignore),
    }
}

/// A new session.
pub open spec fn opened() -> Session {
    Session { phase: Phase::Opening, restarting: false, last_seen_block: None }
}

impl Session {
    /// A client has connected: its session, and the first action.
    pub fn open() -> (r: (Session, Action))
        ensures
            r.0 == opened(),
            r.1@ == (ActionModel::Establish { requested_block: None }),
    {
        (
            Session { phase: Phase::Opening, restarting: false, last_seen_block: None },
            Action::Establish { requested_block: None },
        )
    }

    /// Sends the next buffered frame, or goes on to relaying.
    fn flush_next(&mut self, link: &ClientLink) -> (action: Action)
        ensures
            (*final(self), link@, action@) == flush(*old(self), link@),
    {
        match link.first_pending() {
            Some(frame) => {
                self.phase = Phase::Flushing;
                Action::ToUpstream(frame)
            },
            None => self.relay_again(),
        }
    }

    /// Goes back to relaying, behind a new upstream.
    fn relay_again(&mut self) -> (action: Action)
        ensures
            *final(self) == (Session { phase: Phase::Reading, restarting: true, ..*old(self) }),
            action@ == ActionModel::Read,
    {
        self.phase = Phase::Reading;
        self.restarting = true;
        Action::Read
    }

    /// Looks for another upstream in place of the lost one.
    fn lose_upstream(&mut self, link: &mut ClientLink) -> (action: Action)
        ensures
            (*final(self), final(link)@, action@) == fail_over(*old(self), old(link)@),
    {
        let requested_block = link.resume(self.last_seen_block);
        self.phase = Phase::FailingOver;
        Action::Establish { requested_block }
    }

    /// Ends the session without a word.
    fn end(&mut self) -> (action: Action)
        ensures
            *final(self) == in_phase(*old(self), Phase::Ended),
            action@ == ActionModel::End,
    {
        self.phase = Phase::Ended;
        Action::End
    }

    /// Ends the session with a close frame.
    fn close(&mut self, code: u16, reason: &'static str) -> (action: Action)
        ensures
            *final(self) == in_phase(*old(self), Phase::Ended),
            action@ == (ActionModel::CloseClient { code, reason: reason@ }),
    {
        self.phase = Phase::Ended;
        Action::CloseClient { code, reason }
    }

    /// Hands a frame of the upstream on, unless the client already has that block.
    /// During failover only duplicate block frames are dropped; everything else (status
    /// results, head keep-alives) is forwarded so the client never stalls.
    fn relay(&mut self, frame: Frame) -> (action: Action)
        requires
            old(self).phase == Phase::Reading,
        ensures
            duplicate(*old(self), frame@) ==> *final(self) == *old(self) && action@
                == ActionModel::Read,
            !duplicate(*old(self), frame@) ==> *final(self) == after_forward(*old(self), frame@)
                && action@ == ActionModel::ToClient(frame@),
    {
        if let Some(block) = extract_block_num(&frame) {
            if self.restarting {
                let expected: u32 = match self.last_seen_block {
                    Some(seen) => seen.saturating_add(1),
                    None => 0,
                };
                if block < expected {
                    return Action::Read;
                }
                self.restarting = false;
            }
            self.last_seen_block = Some(block);
        }
        self.phase = Phase::Forwarding;
        Action::ToClient(frame)
    }

    /// Takes an event and decides what to do next.
    pub fn step(&mut self, link: &mut ClientLink, event: Event) -> (action: Action)
        ensures
            (*final(self), final(link)@, action@) == transition(*old(self), old(link)@, event@),
    {
        match (self.phase, event) {
            (Phase::Ended, _) => self.end(),
            (Phase::Opening, Event::UpstreamReady { abi, accepted }) => {
                if accepted {
                    self.phase = Phase::SendingAbi;
                    Action::SendAbi(abi)
                } else {
                    self.end()
                }
            },
            (Phase::Opening, Event::NoUpstream) => self.close(CLOSE_ERROR, REASON_NO_UPSTREAM),
            (Phase::SendingAbi, Event::Sent) => {
                self.phase = Phase::Reading;
                Action::Read
            },
            (Phase::SendingAbi, Event::SendFailed) => self.end(),
            (Phase::Reading, Event::Upstream(Frame::Close(_))) => self.lose_upstream(link),
            (Phase::Reading, Event::Upstream(frame)) => self.relay(frame),
            (Phase::Reading, Event::ClientGone) => self.end(),
            (Phase::Reading, Event::Shutdown) => self.close(CLOSE_AWAY, REASON_SHUTDOWN),
            (Phase::Reading, Event::UpstreamEnded) => self.lose_upstream(link),
            (Phase::Forwarding, Event::Sent) => {
                self.phase = Phase::Reading;
                Action::Read
            },
            (Phase::Forwarding, Event::SendFailed) => self.end(),
            (Phase::FailingOver, Event::UpstreamReady { abi: _, accepted }) => {
                if accepted {
                    self.phase = Phase::Pausing;
                    Action::SwapAndPause
                } else {
                    self.end()
                }
            },
            (Phase::FailingOver, Event::NoUpstream) => self.close(CLOSE_ERROR, REASON_NO_FAILOVER),
            (Phase::Pausing, Event::PauseOver) => match link.replay() {
                Some(request) => {
                    self.phase = Phase::Replaying;
                    Action::ToUpstream(request)
                },
                None => self.flush_next(link),
            },
            (Phase::Replaying, Event::Sent) => self.flush_next(link),
            (Phase::Replaying, Event::SendFailed) => self.lose_upstream(link),
            (Phase::Flushing, Event::Sent) => {
                link.pending_sent();
                self.flush_next(link)
            },
            (Phase::Flushing, Event::SendFailed) => self.relay_again(),
            _ => Action::Ignore,
        }
    }

    /// An upstream is connected and has sent its ABI: checks the ABI and takes the event.
    pub fn upstream_ready(
        &mut self,
        link: &mut ClientLink,
        ctx: &AbiContext,
        abi: String,
    ) -> (action: Action)
        ensures
            (*final(self), final(link)@, action@) == transition(
                *old(self),
                old(link)@,
                EventModel::UpstreamReady {
                    abi: abi@,
                    accepted: crate::abi::abi_loads("0"@, abi@, usize::BITS),
                },
            ),
    {
        let accepted = match ctx.check_session_abi(&abi) {
            Ok(()) => true,
            Err(_) => false,
        };
        self.step(link, Event::UpstreamReady { abi, accepted })
    }
}

// ---------------------------------------------------------------------------
// What holds of every session
// ---------------------------------------------------------------------------

/// The state after a sequence of events, and the actions taken on them.
pub open spec fn run(session: Session, link: LinkModel, events: Seq<EventModel>) -> (
    Session,
    LinkModel,
    Seq<ActionModel>,
)
    decreases events.len(),
{
    if events.len() == 0 {
        (session, link, Seq::empty())
    } else {
        let (s, l, actions) = run(session, link, events.drop_last());
        let (t, m, action) = transition(s, l, events.last());
        (t, m, actions.push(action))
    }
}

/// A session that is over stays over, whatever happens.
pub proof fn law_ended_stays_ended(session: Session, link: LinkModel, event: EventModel)
    requires
        session.phase == Phase::Ended,
    ensures
        transition(session, link, event) == (session, link, ActionModel::End),
{
}

/// A session is over exactly once it has closed the client's connection or dropped the
/// connections.
pub proof fn law_ended_with_the_connection(session: Session, link: LinkModel, event: EventModel)
    ensures
        transition(session, link, event).0.phase == Phase::Ended <==> {
            ||| transition(session, link, event).2 is CloseClient
            ||| transition(session, link, event).2 is End
        },
{
}

/// What the client is sent is the very frame that the upstream sent.
pub proof fn law_frames_unchanged(
    session: Session,
    link: LinkModel,
    event: EventModel,
    frame: FrameModel,
)
    requires
        transition(session, link, event).2 == ActionModel::ToClient(frame),
    ensures
        session.phase == Phase::Reading,
        event == EventModel::Upstream(frame),
{
}

/// Frames that deliver no block (status results, head keep-alives) are always
/// forwarded, during failover too, and change nothing about the replay. Only a close
/// frame, the end of the upstream, is not.
pub proof fn law_other_frames_forwarded(session: Session, link: LinkModel, frame: FrameModel)
    requires
        session.phase == Phase::Reading,
        crate::frame::block_num(frame) is None,
        frame !is Close,
    ensures
        transition(session, link, EventModel::Upstream(frame)) == (
            in_phase(session, Phase::Forwarding),
            link,
            ActionModel::ToClient(frame),
        ),
{
}

/// Outside failover, and before the first block, every frame is forwarded, but for the one
/// that closes the upstream.
pub proof fn law_all_forwarded_without_failover(
    session: Session,
    link: LinkModel,
    frame: FrameModel,
)
    requires
        session.phase == Phase::Reading,
        !session.restarting || session.last_seen_block is None,
        frame !is Close,
    ensures
        transition(session, link, EventModel::Upstream(frame)).2 == ActionModel::ToClient(frame),
{
}

/// No block that the client was sent before a failover is sent again by the replay: a
/// block that is forwarded while the upstream replays lies behind the last one seen.
pub proof fn law_no_duplicate_from_replay(
    session: Session,
    link: LinkModel,
    frame: FrameModel,
    block: u32,
    seen: u32,
)
    requires
        session.phase == Phase::Reading,
        session.restarting,
        session.last_seen_block == Some(seen),
        seen < u32::MAX,
        crate::frame::block_num(frame) == Some(block),
    ensures
        transition(session, link, EventModel::Upstream(frame)).2 == ActionModel::ToClient(frame)
            <==> block > seen,
        block <= seen ==> transition(session, link, EventModel::Upstream(frame)) == (
            session,
            link,
            ActionModel::Read,
        ),
{
}

/// The events by which a session loses its upstream: its stream ends, it closes the
/// connection, or it cannot be sent what it should be sent after a failover.
pub open spec fn upstream_lost(session: Session, event: EventModel) -> bool {
    match (session.phase, event) {
        (Phase::Reading, EventModel::UpstreamEnded) => true,
        (Phase::Reading, EventModel::Upstream(frame)) => frame is Close,
        (Phase::Replaying, EventModel::SendFailed) => true,
        (Phase::Flushing, EventModel::SendFailed) => true,
        _ => false,
    }
}

/// The client's connection stays open when an upstream is lost: the session neither ends
/// nor closes it, the client is sent nothing, and no frame that waits is dropped.
pub proof fn law_upstream_loss_keeps_client(
    session: Session,
    link: LinkModel,
    event: EventModel,
)
    requires
        upstream_lost(session, event),
    ensures
        ({
            let (s, l, action) = transition(session, link, event);
            &&& s.phase != Phase::Ended
            &&& action !is CloseClient && action !is End && action !is ToClient
            &&& l.pending == link.pending
            &&& s.last_seen_block == session.last_seen_block
            &&& session.phase != Phase::Flushing ==> action is Establish
        }),
{
}

/// A frame that waits is dropped only once it is known to have been sent, and then the
/// oldest one.
pub proof fn law_waiting_frames_kept(session: Session, link: LinkModel, event: EventModel)
    ensures
        ({
            let after = transition(session, link, event).1.pending;
            if session.phase == Phase::Flushing && event is Sent && link.pending.len() > 0 {
                after == link.pending.drop_first()
            } else {
                after == link.pending
            }
        }),
{
}

/// The link keeps its invariant.
pub proof fn law_link_stays_valid(session: Session, link: LinkModel, event: EventModel)
    requires
        link.valid(),
    ensures
        transition(session, link, event).1.valid(),
{
    if upstream_lost(session, event) {
        match (link.last_request, session.last_seen_block) {
            (Some(request), Some(block)) => {
                crate::client_link::law_restarted_request(
                    request,
                    crate::client_link::next_block(block),
                );
            },
            _ => {},
        }
    }
}

/// When an upstream is lost, the client's request resumes at the block after the last
/// one that the client was sent, and an upstream with that block is looked for.
pub proof fn law_resumes_at_next_block(
    session: Session,
    link: LinkModel,
    event: EventModel,
    request: Seq<u8>,
    seen: u32,
)
    requires
        upstream_lost(session, event),
        session.phase != Phase::Flushing,
        link.valid(),
        link.last_request == Some(request),
        session.last_seen_block == Some(seen),
        seen < u32::MAX,
    ensures
        ({
            let (s, l, action) = transition(session, link, event);
            let next = (seen + 1) as u32;
            &&& action == (ActionModel::Establish { requested_block: Some(next) })
            &&& l.last_request == Some(crate::client_link::restarted(request, next))
            &&& crate::protocol::request(crate::client_link::restarted(request, next))
                == crate::client_link::starting_at(crate::protocol::request(request), next)
            &&& l.pending == link.pending
            &&& s == in_phase(session, Phase::FailingOver)
        }),
{
    let next = (seen + 1) as u32;
    crate::client_link::law_restarted_request(request, next);
    crate::client_link::law_restarted_request_decodes(request, next);
}

/// A session that relays a frame and reports it sent: what the client got, if anything,
/// and the session afterwards.
pub open spec fn relay_one(session: Session, link: LinkModel, frame: FrameModel) -> (
    Session,
    Seq<FrameModel>,
) {
    let (s, l, action) = transition(session, link, EventModel::Upstream(frame));
    match action {
        ActionModel::ToClient(sent) => (transition(s, l, EventModel::Sent).0, seq![sent]),
        _ => (s, Seq::empty()),
    }
}

/// What the client is sent of a sequence of upstream frames.
pub open spec fn relay_all(session: Session, link: LinkModel, frames: Seq<FrameModel>) -> Seq<
    FrameModel,
>
    decreases frames.len(),
{
    if frames.len() == 0 {
        Seq::empty()
    } else {
        let (s, sent) = relay_one(session, link, frames[0]);
        sent + relay_all(s, link, frames.drop_first())
    }
}

/// Outside failover, and where it was sent no block yet, the client is sent every frame, in
/// order, until the upstream closes.
pub proof fn law_relays_everything(session: Session, link: LinkModel, frames: Seq<FrameModel>)
    requires
        session.phase == Phase::Reading,
        !session.restarting || session.last_seen_block is None,
        forall|i: int| 0 <= i < frames.len() ==> (#[trigger] frames[i]) !is Close,
    ensures
        relay_all(session, link, frames) == frames,
    decreases frames.len(),
{
    if frames.len() > 0 {
        let (s, sent) = relay_one(session, link, frames[0]);
        assert(frames[0] !is Close);
        law_relays_everything(s, link, frames.drop_first());
        assert(seq![frames[0]] + frames.drop_first() =~= frames);
    }
}

/// Whether a frame delivers a block that is not behind `seen`.
pub open spec fn is_replayed(frame: FrameModel, seen: u32) -> bool {
    crate::frame::block_num(frame) matches Some(block) && block <= seen
}

/// Whether a frame delivers a block behind `seen`.
pub open spec fn is_behind(frame: FrameModel, seen: u32) -> bool {
    crate::frame::block_num(frame) matches Some(block) && block > seen
}

/// The position of the first frame with a block behind `seen`; where there is none, the
/// number of frames.
pub open spec fn first_behind(frames: Seq<FrameModel>, seen: u32) -> int
    decreases frames.len(),
{
    if frames.len() == 0 || is_behind(frames[0], seen) {
        0
    } else {
        1 + first_behind(frames.drop_first(), seen)
    }
}

proof fn lemma_first_behind(frames: Seq<FrameModel>, seen: u32)
    ensures
        ({
            let k = first_behind(frames, seen);
            &&& 0 <= k <= frames.len()
            &&& k < frames.len() ==> is_behind(frames[k], seen)
            &&& forall|i: int| 0 <= i < k ==> !is_behind(#[trigger] frames[i], seen)
        }),
    decreases frames.len(),
{
    if frames.len() > 0 && !is_behind(frames[0], seen) {
        let rest = frames.drop_first();
        lemma_first_behind(rest, seen);
        assert forall|i: int| 0 <= i < first_behind(frames, seen) implies !is_behind(
            #[trigger] frames[i],
            seen,
        ) by {
            if i > 0 {
                assert(rest[i - 1] == frames[i]);
            }
        }
    }
}

/// After a failover nothing is left out but what the client already has: of any frames
/// without a close frame, up to the first block behind the last one seen, exactly the
/// blocks at or before that one are left out. Everything else is sent, in order.
pub proof fn law_only_replayed_blocks_left_out(
    session: Session,
    link: LinkModel,
    frames: Seq<FrameModel>,
    seen: u32,
)
    requires
        session.phase == Phase::Reading,
        session.restarting,
        session.last_seen_block == Some(seen),
        seen < u32::MAX,
        forall|i: int| 0 <= i < frames.len() ==> (#[trigger] frames[i]) !is Close,
    ensures
        ({
            let k = first_behind(frames, seen);
            &&& 0 <= k <= frames.len()
            &&& k < frames.len() ==> is_behind(frames[k], seen)
            &&& forall|i: int| 0 <= i < k ==> !is_behind(#[trigger] frames[i], seen)
            &&& relay_all(session, link, frames) == frames.take(k).filter(
                |f: FrameModel| !is_replayed(f, seen),
            ) + frames.skip(k)
        }),
    decreases frames.len(),
{
    reveal(Seq::filter);
    lemma_first_behind(frames, seen);
    let k = first_behind(frames, seen);
    let kept = |f: FrameModel| !is_replayed(f, seen);
    if frames.len() == 0 {
        assert(frames.take(0).filter(kept) + frames.skip(0) =~= frames);
    } else {
        let frame = frames[0];
        let rest = frames.drop_first();
        let (s, sent) = relay_one(session, link, frame);
        assert(frame !is Close);
        if is_behind(frame, seen) {
            law_relays_everything(s, link, rest);
            assert(seq![frame] + rest =~= frames);
            assert(frames.take(0).filter(kept) + frames.skip(0) =~= frames);
        } else {
            assert(s == session);
            law_only_replayed_blocks_left_out(session, link, rest, seen);
            let one = seq![frame];
            assert(frames.take(k) =~= one + rest.take(k - 1));
            assert(frames.skip(k) =~= rest.skip(k - 1));
            Seq::filter_distributes_over_add(one, rest.take(k - 1), kept);
            assert(one.drop_last() =~= Seq::<FrameModel>::empty());
            assert(Seq::<FrameModel>::empty().filter(kept) =~= Seq::empty());
            assert(one.filter(kept) =~= sent);
            assert(sent + (rest.take(k - 1).filter(kept) + rest.skip(k - 1)) =~= (sent
                + rest.take(k - 1).filter(kept)) + rest.skip(k - 1));
        }
    }
}

/// The frames that deliver a block.
pub open spec fn blocks_of(frames: Seq<FrameModel>) -> Seq<FrameModel> {
    frames.filter(|f: FrameModel| crate::frame::block_num(f) is Some)
}

/// Frames that deliver consecutive blocks, from `first` on.
pub open spec fn consecutive_blocks(frames: Seq<FrameModel>, first: u32) -> bool {
    forall|i: int|
        0 <= i < frames.len() ==> first + i <= u32::MAX && crate::frame::block_num(
            #[trigger] frames[i],
        ) == Some((first + i) as u32)
}

/// Of frames without a block behind `seen`, the blocks are all left out.
proof fn lemma_replayed_blocks(frames: Seq<FrameModel>, seen: u32)
    requires
        forall|i: int| 0 <= i < frames.len() ==> !is_behind(#[trigger] frames[i], seen),
    ensures
        blocks_of(frames.filter(|f: FrameModel| !is_replayed(f, seen))).len() == 0,
        forall|i: int|
            0 <= i < blocks_of(frames).len() ==> is_replayed(
                #[trigger] blocks_of(frames)[i],
                seen,
            ),
    decreases frames.len(),
{
    reveal(Seq::filter);
    let kept = |f: FrameModel| !is_replayed(f, seen);
    if frames.len() > 0 {
        let rest = frames.drop_last();
        lemma_replayed_blocks(rest, seen);
        assert(!is_behind(frames[frames.len() - 1], seen));
        let last = frames.last();
        if kept(last) {
            assert(frames.filter(kept).drop_last() =~= rest.filter(kept));
            assert(frames.filter(kept).last() == last);
        }
        assert forall|i: int| 0 <= i < blocks_of(frames).len() implies is_replayed(
            #[trigger] blocks_of(frames)[i],
            seen,
        ) by {
            if i < blocks_of(rest).len() {
                assert(blocks_of(frames)[i] == blocks_of(rest)[i]);
            }
        }
    }
}

/// The blocks before and behind the first one behind `seen`.
proof fn lemma_blocks_split(frames: Seq<FrameModel>, seen: u32)
    ensures
        ({
            let k = first_behind(frames, seen);
            let kept = frames.take(k).filter(|f: FrameModel| !is_replayed(f, seen));
            let before = blocks_of(frames.take(k));
            let after = blocks_of(frames.skip(k));
            &&& blocks_of(frames) == before + after
            &&& blocks_of(kept + frames.skip(k)) == after
            &&& forall|i: int| 0 <= i < before.len() ==> is_replayed(#[trigger] before[i], seen)
            &&& after.len() > 0 ==> is_behind(after[0], seen)
        }),
{
    let is_block = |f: FrameModel| crate::frame::block_num(f) is Some;
    lemma_first_behind(frames, seen);
    let k = first_behind(frames, seen);
    let before = frames.take(k);
    let after = frames.skip(k);
    let kept = before.filter(|f: FrameModel| !is_replayed(f, seen));
    assert(before + after =~= frames);
    Seq::filter_distributes_over_add(before, after, is_block);
    Seq::filter_distributes_over_add(kept, after, is_block);
    lemma_replayed_blocks(before, seen);
    assert(blocks_of(kept) + blocks_of(after) =~= blocks_of(after));
    if k < frames.len() {
        let one = seq![frames[k]];
        assert(after =~= one + frames.skip(k + 1));
        Seq::filter_distributes_over_add(one, frames.skip(k + 1), is_block);
        assert(one.filter(is_block) =~= one) by {
            reveal(Seq::filter);
            assert(one.drop_last() =~= Seq::<FrameModel>::empty());
            assert(Seq::<FrameModel>::empty().filter(is_block) =~= Seq::empty());
        }
    } else {
        after.lemma_filter_len(is_block);
    }
}

/// Of consecutive blocks in two parts, where `seen` lies between them, the second one holds
/// those behind it.
proof fn lemma_consecutive_split(
    before: Seq<FrameModel>,
    after: Seq<FrameModel>,
    first: u32,
    seen: u32,
)
    requires
        first <= seen + 1,
        consecutive_blocks(before + after, first),
        forall|i: int| 0 <= i < before.len() ==> is_replayed(#[trigger] before[i], seen),
        after.len() > 0 ==> is_behind(after[0], seen),
    ensures
        after == if (before + after).len() > seen + 1 - first {
            (before + after).skip(seen + 1 - first)
        } else {
            Seq::empty()
        },
{
    let all = before + after;
    let m = before.len() as int;
    if m > 0 {
        assert(all[m - 1] == before[m - 1]);
    }
    if after.len() > 0 {
        assert(all[m] == after[0]);
        assert(m == seen + 1 - first);
        assert(all.skip(m) =~= after);
    } else {
        assert(after =~= Seq::empty());
    }
}

/// After a failover the client's stream goes on without a gap and without a duplicate:
/// where the blocks among the frames of the new upstream are consecutive from `first` on,
/// and none is missing behind the last block seen, the client is sent exactly those behind
/// it, whatever other frames stand between them.
pub proof fn law_failover_is_gapless(
    session: Session,
    link: LinkModel,
    frames: Seq<FrameModel>,
    first: u32,
    seen: u32,
)
    requires
        session.phase == Phase::Reading,
        session.restarting,
        session.last_seen_block == Some(seen),
        seen < u32::MAX,
        first <= seen + 1,
        forall|i: int| 0 <= i < frames.len() ==> (#[trigger] frames[i]) !is Close,
        consecutive_blocks(blocks_of(frames), first),
    ensures
        blocks_of(relay_all(session, link, frames)) == if blocks_of(frames).len() > seen + 1
            - first {
            blocks_of(frames).skip(seen + 1 - first)
        } else {
            Seq::empty()
        },
{
    law_only_replayed_blocks_left_out(session, link, frames, seen);
    lemma_blocks_split(frames, seen);
    let k = first_behind(frames, seen);
    lemma_consecutive_split(
        blocks_of(frames.take(k)),
        blocks_of(frames.skip(k)),
        first,
        seen,
    );
}

/// The events of a failover that succeeds: the upstream ends, another one is ready, the
/// pause passes, and the `sends` frames that it is sent are sent.
pub open spec fn failover_events(abi: Seq<char>, sends: nat) -> Seq<EventModel> {
    seq![
        EventModel::UpstreamEnded,
        EventModel::UpstreamReady { abi, accepted: true },
        EventModel::PauseOver,
    ] + Seq::new(sends, |i: int| EventModel::Sent)
}

/// What a new upstream is sent: the request, where the client has made one, and the frames
/// that wait, oldest first.
pub open spec fn catch_up_frames(link: LinkModel) -> Seq<FrameModel> {
    match link.last_request {
        Some(request) => seq![FrameModel::Binary(request)] + link.pending,
        None => link.pending,
    }
}

/// The link once the first `k` of those frames are known to have been sent.
spec fn caught_up_link(link: LinkModel, k: int) -> LinkModel {
    let sent = if link.last_request is Some {
        k - 1
    } else {
        k
    };
    LinkModel { pending: link.pending.skip(if sent < 0 { 0 } else { sent }), ..link }
}

/// From the pause on, frame after frame is sent, and then the new upstream is relayed.
proof fn lemma_catch_up(session: Session, link: LinkModel, k: int)
    requires
        session.phase == Phase::Pausing,
        0 <= k <= catch_up_frames(link).len(),
    ensures
        ({
            let frames = catch_up_frames(link);
            let (s, l, actions) = run(
                session,
                link,
                seq![EventModel::PauseOver] + Seq::new(k as nat, |i: int| EventModel::Sent),
            );
            &&& l == caught_up_link(link, k)
            &&& actions.len() == k + 1
            &&& forall|i: int|
                0 <= i < k ==> #[trigger] actions[i] == ActionModel::ToUpstream(frames[i])
            &&& if k < frames.len() {
                &&& actions[k] == ActionModel::ToUpstream(frames[k])
                &&& s == in_phase(
                    session,
                    if k == 0 && link.last_request is Some {
                        Phase::Replaying
                    } else {
                        Phase::Flushing
                    },
                )
            } else {
                &&& actions[k] == ActionModel::Read
                &&& s == (Session { phase: Phase::Reading, restarting: true, ..session })
            }
        }),
    decreases k,
{
    let frames = catch_up_frames(link);
    let events = seq![EventModel::PauseOver] + Seq::new(k as nat, |i: int| EventModel::Sent);
    if k == 0 {
        assert(events.drop_last() =~= Seq::<EventModel>::empty());
        assert(events.last() == EventModel::PauseOver);
        assert(run(session, link, events.drop_last()) == (
            session,
            link,
            Seq::<ActionModel>::empty(),
        ));
        assert(link.pending.skip(0) =~= link.pending);
        assert(caught_up_link(link, 0) == link);
    } else {
        lemma_catch_up(session, link, k - 1);
        let shorter = seq![EventModel::PauseOver] + Seq::new(
            (k - 1) as nat,
            |i: int| EventModel::Sent,
        );
        assert(events.drop_last() =~= shorter);
        assert(events.last() == EventModel::Sent);
        let before = caught_up_link(link, k - 1);
        let after = caught_up_link(link, k);
        if k == 1 && link.last_request is Some {
            assert(before == after);
        } else {
            assert(before.pending.len() > 0);
            assert(before.pending.drop_first() =~= after.pending);
            assert(before.popped() == after);
        }
        if k < frames.len() {
            assert(after.pending.len() > 0);
            assert(after.pending[0] == frames[k]);
        } else {
            assert(after.pending.len() == 0);
        }
    }
}

/// `run` over a sequence in two parts.
proof fn lemma_run_concat(
    session: Session,
    link: LinkModel,
    first: Seq<EventModel>,
    second: Seq<EventModel>,
)
    ensures
        ({
            let (s, l, actions) = run(session, link, first);
            let (t, m, more) = run(s, l, second);
            run(session, link, first + second) == (t, m, actions + more)
        }),
    decreases second.len(),
{
    let (s, l, actions) = run(session, link, first);
    if second.len() == 0 {
        assert(first + second =~= first);
        assert(actions + Seq::<ActionModel>::empty() =~= actions);
    } else {
        lemma_run_concat(session, link, first, second.drop_last());
        assert((first + second).drop_last() =~= first + second.drop_last());
        let (t, m, more) = run(s, l, second.drop_last());
        let action = transition(t, m, second.last()).2;
        assert((actions + more).push(action) =~= actions + more.push(action));
    }
}

/// A failover that succeeds: an upstream for the next block is looked for and swapped in
/// after a pause, the request resumed there is replayed, if the client has made one, the
/// client frames that waited follow in the order in which they came, and the new upstream
/// is relayed with replayed blocks left out.
pub proof fn law_failover_replays_in_order(session: Session, link: LinkModel, abi: Seq<char>)
    requires
        session.phase == Phase::Reading,
    ensures
        ({
            let resumed = link.resumed(session.last_seen_block);
            let frames = catch_up_frames(resumed);
            run(session, link, failover_events(abi, frames.len())) == (
                Session { restarting: true, ..session },
                LinkModel { pending: Seq::empty(), ..resumed },
                seq![
                    ActionModel::Establish { requested_block: resumed.start_block() },
                    ActionModel::SwapAndPause,
                ] + Seq::new(frames.len(), |i: int| ActionModel::ToUpstream(frames[i])) + seq![
                    ActionModel::Read,
                ],
            )
        }),
{
    let resumed = link.resumed(session.last_seen_block);
    let frames = catch_up_frames(resumed);
    let n = frames.len();
    let one = seq![EventModel::UpstreamEnded];
    let two = seq![
        EventModel::UpstreamEnded,
        EventModel::UpstreamReady { abi, accepted: true },
    ];
    let rest = seq![EventModel::PauseOver] + Seq::new(n, |i: int| EventModel::Sent);
    let pausing = in_phase(session, Phase::Pausing);
    let lead = seq![
        ActionModel::Establish { requested_block: resumed.start_block() },
        ActionModel::SwapAndPause,
    ];
    // The two events up to the pause.
    reveal_with_fuel(run, 2);
    assert(one.drop_last() =~= Seq::<EventModel>::empty());
    assert(two.drop_last() =~= one);
    assert(run(session, link, one).2 =~= lead.take(1));
    assert(run(session, link, two).2 =~= lead);
    assert(run(session, link, two) == (pausing, resumed, lead));
    // The request and the frames that waited.
    lemma_catch_up(pausing, resumed, n as int);
    lemma_run_concat(session, link, two, rest);
    assert(two + rest =~= failover_events(abi, n));
    let flushed = Seq::new(n, |i: int| ActionModel::ToUpstream(frames[i]));
    assert(caught_up_link(resumed, n as int).pending =~= Seq::empty());
    assert(run(pausing, resumed, rest).2 =~= flushed + seq![ActionModel::Read]);
    assert(lead + (flushed + seq![ActionModel::Read]) =~= lead + flushed + seq![ActionModel::Read]);
}

/// A client is sent the ABI at most once, and nothing of the upstream before it: in any
/// run of a new session, a forwarded frame comes after the ABI, and no ABI follows
/// another.
pub proof fn law_abi_first_and_once(link: LinkModel, events: Seq<EventModel>)
    ensures
        ({
            let (s, l, actions) = run(opened(), link, events);
            &&& forall|i: int|
                0 <= i < actions.len() && (#[trigger] actions[i]) is ToClient ==> exists|j: int|
                    0 <= j < i && (#[trigger] actions[j]) is SendAbi
            &&& forall|i: int, j: int|
                0 <= i < j < actions.len() ==> !((#[trigger] actions[i]) is SendAbi && (
                #[trigger] actions[j]) is SendAbi)
            &&& s.phase == Phase::Opening ==> forall|i: int|
                0 <= i < actions.len() ==> !((#[trigger] actions[i]) is SendAbi)
            &&& s.phase != Phase::Opening && s.phase != Phase::Ended ==> exists|j: int|
                0 <= j < actions.len() && (#[trigger] actions[j]) is SendAbi
        }),
    decreases events.len(),
{
    if events.len() > 0 {
        let before = events.drop_last();
        law_abi_first_and_once(link, before);
        let (s, l, actions) = run(opened(), link, before);
        let (t, m, action) = transition(s, l, events.last());
        let all = actions.push(action);
        assert(run(opened(), link, events).2 == all);
        let n = actions.len() as int;
        assert forall|i: int| 0 <= i < all.len() && (#[trigger] all[i]) is ToClient implies exists|
            j: int,
        |
            0 <= j < i && (#[trigger] all[j]) is SendAbi by {
            if i < n {
                assert(actions[i] is ToClient);
                let j = choose|j: int| 0 <= j < i && (#[trigger] actions[j]) is SendAbi;
                assert(all[j] is SendAbi);
            } else {
                assert(s.phase == Phase::Reading);
                let j = choose|j: int| 0 <= j < n && (#[trigger] actions[j]) is SendAbi;
                assert(all[j] is SendAbi);
            }
        }
        assert forall|i: int, j: int| 0 <= i < j < all.len() implies !((#[trigger] all[i]) is SendAbi
            && (#[trigger] all[j]) is SendAbi) by {
            assert(all[i] == actions[i]);
            if j < n {
                assert(all[j] == actions[j]);
            } else if action is SendAbi {
                assert(s.phase == Phase::Opening);
            }
        }
        if t.phase != Phase::Opening && t.phase != Phase::Ended {
            if s.phase == Phase::Opening {
                assert(all[n] is SendAbi);
            } else {
                let j = choose|j: int| 0 <= j < n && (#[trigger] actions[j]) is SendAbi;
                assert(all[j] is SendAbi);
            }
        }
    }
}

// ---------------------------------------------------------------------------
// What each event brings
// ---------------------------------------------------------------------------

/// When the process shuts down, a client that is being served is told so by a close frame,
/// whatever it has been sent and whether or not its upstream is replaying, and its session
/// is over.
pub proof fn law_shutdown_closes_client(session: Session, link: LinkModel)
    requires
        session.phase == Phase::Reading,
    ensures
        transition(session, link, EventModel::Shutdown) == (
            Session { phase: Phase::Ended, ..session },
            link,
            ActionModel::CloseClient { code: 1001, reason: "server shutting down"@ },
        ),
{
}

/// A new session has handed nothing to its client, and has no upstream yet.
pub proof fn law_new_session()
    ensures
        opened().phase == Phase::Opening,
        !opened().restarting,
        opened().last_seen_block is None,
{
}

/// A client that goes away ends its session.
pub proof fn law_client_gone_ends(session: Session, link: LinkModel)
    requires
        session.phase == Phase::Reading,
    ensures
        transition(session, link, EventModel::ClientGone) == (
            Session { phase: Phase::Ended, ..session },
            link,
            ActionModel::End,
        ),
{
}

/// The ABI of the first upstream is sent to the client as it came, where it can be loaded;
/// where it cannot, the session ends. Without an upstream the client is told so.
pub proof fn law_first_upstream(session: Session, link: LinkModel, abi: Seq<char>)
    requires
        session.phase == Phase::Opening,
    ensures
        transition(session, link, EventModel::UpstreamReady { abi, accepted: true }) == (
            Session { phase: Phase::SendingAbi, ..session },
            link,
            ActionModel::SendAbi(abi),
        ),
        transition(session, link, EventModel::UpstreamReady { abi, accepted: false }) == (
            Session { phase: Phase::Ended, ..session },
            link,
            ActionModel::End,
        ),
        transition(session, link, EventModel::NoUpstream) == (
            Session { phase: Phase::Ended, ..session },
            link,
            ActionModel::CloseClient { code: 1011, reason: "No upstream server available"@ },
        ),
{
}

/// What is sent to the client, the ABI or a frame, has to arrive: then the next frame is
/// awaited, and otherwise the session ends. Nothing else of the session changes.
pub proof fn law_sent_to_client(session: Session, link: LinkModel)
    requires
        session.phase == Phase::SendingAbi || session.phase == Phase::Forwarding,
    ensures
        transition(session, link, EventModel::Sent) == (
            Session { phase: Phase::Reading, ..session },
            link,
            ActionModel::Read,
        ),
        transition(session, link, EventModel::SendFailed) == (
            Session { phase: Phase::Ended, ..session },
            link,
            ActionModel::End,
        ),
{
}

/// What becomes of a frame of the upstream that does not close it. One that delivers no
/// block is handed to the client. A block is handed to the client, and is then the last one
/// seen, unless the upstream is replaying and the client has that block already. (A block
/// with the highest number of all cannot be told from its successor.)
pub proof fn law_relays_frame(session: Session, link: LinkModel, frame: FrameModel)
    requires
        session.phase == Phase::Reading,
        frame !is Close,
    ensures
        ({
            let (s, l, action) = transition(session, link, EventModel::Upstream(frame));
            &&& l == link
            &&& match crate::frame::block_num(frame) {
                None => s == (Session { phase: Phase::Forwarding, ..session }) && action
                    == ActionModel::ToClient(frame),
                Some(block) => {
                    let known = session.restarting && match session.last_seen_block {
                        Some(seen) => block <= seen && block < u32::MAX,
                        None => false,
                    };
                    if known {
                        s == session && action == ActionModel::Read
                    } else {
                        &&& action == ActionModel::ToClient(frame)
                        &&& s.phase == Phase::Forwarding
                        &&& !s.restarting
                        &&& s.last_seen_block == Some(block)
                    }
                },
            }
        }),
{
}

/// A block that is handed to the client is the last one seen, whatever else its frame says.
pub proof fn law_forwarded_block_is_last_seen(
    session: Session,
    link: LinkModel,
    event: EventModel,
    frame: FrameModel,
    block: u32,
)
    requires
        transition(session, link, event).2 == ActionModel::ToClient(frame),
        crate::frame::block_num(frame) == Some(block),
    ensures
        transition(session, link, event).0.last_seen_block == Some(block),
{
}

/// Nothing but a block that is handed to the client changes the last block seen.
pub proof fn law_last_seen_moves_with_blocks(session: Session, link: LinkModel, event: EventModel)
    ensures
        ({
            let (s, l, action) = transition(session, link, event);
            s.last_seen_block != session.last_seen_block ==> {
                &&& action is ToClient
                &&& s.last_seen_block == crate::frame::block_num(action->ToClient_0)
            }
        }),
{
}

/// Losing an upstream: another one is looked for. The client's request, where it has made
/// one, resumes behind the last block that the client was sent and is otherwise the same;
/// before the first block it stays as it is. An upstream with that block is asked for.
pub proof fn law_lost_upstream_is_replaced(session: Session, link: LinkModel, event: EventModel)
    requires
        link.valid(),
        ({
            ||| session.phase == Phase::Reading && event is UpstreamEnded
            ||| session.phase == Phase::Reading && event is Upstream && event->Upstream_0 is Close
            ||| session.phase == Phase::Replaying && event is SendFailed
        }),
    ensures
        ({
            let (s, l, action) = transition(session, link, event);
            &&& s == (Session { phase: Phase::FailingOver, ..session })
            &&& l.pending == link.pending
            &&& match link.last_request {
                None => {
                    &&& l.last_request is None
                    &&& action == (ActionModel::Establish { requested_block: None })
                },
                Some(request) => match session.last_seen_block {
                    None => {
                        &&& l.last_request == Some(request)
                        &&& action == (ActionModel::Establish {
                            requested_block: Some(crate::bytes::u32_at(request, 1)),
                        })
                    },
                    Some(seen) => {
                        let next: u32 = if seen == u32::MAX {
                            u32::MAX
                        } else {
                            (seen + 1) as u32
                        };
                        let resumed = l.last_request->0;
                        &&& l.last_request is Some
                        &&& action == (ActionModel::Establish { requested_block: Some(next) })
                        &&& crate::bytes::u32_at(resumed, 1) == next
                        &&& resumed.len() == request.len()
                        &&& forall|i: int|
                            0 <= i < request.len() && !(1 <= i < 5) ==> #[trigger] resumed[i]
                                == request[i]
                    },
                },
            }
        }),
{
    if let (Some(request), Some(seen)) = (link.last_request, session.last_seen_block) {
        crate::client_link::law_restarted_request(
            request,
            crate::client_link::next_block(seen),
        );
    }
}

/// A new upstream takes the place of the lost one where its ABI can be loaded; where it
/// cannot, the session ends. Where there is none, the client is told so.
pub proof fn law_next_upstream(session: Session, link: LinkModel, abi: Seq<char>)
    requires
        session.phase == Phase::FailingOver,
    ensures
        transition(session, link, EventModel::UpstreamReady { abi, accepted: true }) == (
            Session { phase: Phase::Pausing, ..session },
            link,
            ActionModel::SwapAndPause,
        ),
        transition(session, link, EventModel::UpstreamReady { abi, accepted: false }) == (
            Session { phase: Phase::Ended, ..session },
            link,
            ActionModel::End,
        ),
        transition(session, link, EventModel::NoUpstream) == (
            Session { phase: Phase::Ended, ..session },
            link,
            ActionModel::CloseClient { code: 1011, reason: "no upstream available"@ },
        ),
{
}

/// Behind the pause the new upstream is sent the client's request, where there is one, then
/// the frames that wait, oldest first, and is then relayed as one that replays.
pub proof fn law_catches_up_in_order(session: Session, link: LinkModel, event: EventModel)
    requires
        ({
            ||| session.phase == Phase::Pausing && event is PauseOver
            ||| session.phase == Phase::Replaying && event is Sent
            ||| session.phase == Phase::Flushing && event is Sent
        }),
    ensures
        ({
            let (s, l, action) = transition(session, link, event);
            let waiting = if session.phase == Phase::Flushing && link.pending.len() > 0 {
                link.pending.skip(1)
            } else {
                link.pending
            };
            &&& l == (LinkModel { pending: waiting, ..link })
            &&& if session.phase == Phase::Pausing && link.last_request is Some {
                &&& s == (Session { phase: Phase::Replaying, ..session })
                &&& action == ActionModel::ToUpstream(FrameModel::Binary(link.last_request->0))
            } else if waiting.len() > 0 {
                &&& s == (Session { phase: Phase::Flushing, ..session })
                &&& action == ActionModel::ToUpstream(waiting[0])
            } else {
                &&& s == (Session { phase: Phase::Reading, restarting: true, ..session })
                &&& action == ActionModel::Read
            }
        }),
{
    if link.pending.len() > 0 {
        assert(link.pending.drop_first() =~= link.pending.skip(1));
    }
}

/// Where a frame that waits cannot be sent, the new upstream is relayed all the same, and
/// the frame goes on waiting.
pub proof fn law_unsent_frame_waits_on(session: Session, link: LinkModel)
    requires
        session.phase == Phase::Flushing,
    ensures
        transition(session, link, EventModel::SendFailed) == (
            Session { phase: Phase::Reading, restarting: true, ..session },
            link,
            ActionModel::Read,
        ),
{
}

/// The events that a session waits for in each phase.
pub open spec fn awaited(phase: Phase, event: EventModel) -> bool {
    match phase {
        Phase::Opening | Phase::FailingOver => event is UpstreamReady || event is NoUpstream,
        Phase::SendingAbi | Phase::Forwarding | Phase::Replaying | Phase::Flushing => event is Sent
            || event is SendFailed,
        Phase::Reading => event is Upstream || event is UpstreamEnded || event is ClientGone
            || event is Shutdown,
        Phase::Pausing => event is PauseOver,
        Phase::Ended => true,
    }
}

/// Events that a session does not wait for change nothing.
pub proof fn law_other_events_ignored(session: Session, link: LinkModel, event: EventModel)
    requires
        !awaited(session.phase, event),
    ensures
        transition(session, link, event) == (session, link, ActionModel::Ignore),
{
}

// ---------------------------------------------------------------------------
// Whole sessions
// ---------------------------------------------------------------------------

/// The numbers of the blocks that the client is handed, in order.
pub open spec fn delivered(actions: Seq<ActionModel>) -> Seq<u32>
    decreases actions.len(),
{
    if actions.len() == 0 {
        Seq::empty()
    } else {
        let before = delivered(actions.drop_last());
        match actions.last() {
            ActionModel::ToClient(frame) => match crate::frame::block_num(frame) {
                Some(block) => before.push(block),
                None => before,
            },
            _ => before,
        }
    }
}

proof fn lemma_delivered_push(actions: Seq<ActionModel>, action: ActionModel)
    ensures
        delivered(actions.push(action)) == match action {
            ActionModel::ToClient(frame) => match crate::frame::block_num(frame) {
                Some(block) => delivered(actions).push(block),
                None => delivered(actions),
            },
            _ => delivered(actions),
        },
{
    assert(actions.push(action).drop_last() =~= actions);
}

/// In any run, the last block seen is the last one that the client was handed.
pub proof fn law_last_seen_is_last_delivered(
    session: Session,
    link: LinkModel,
    events: Seq<EventModel>,
)
    ensures
        ({
            let (s, l, actions) = run(session, link, events);
            let blocks = delivered(actions);
            s.last_seen_block == if blocks.len() == 0 {
                session.last_seen_block
            } else {
                Some(blocks.last())
            }
        }),
    decreases events.len(),
{
    if events.len() > 0 {
        law_last_seen_is_last_delivered(session, link, events.drop_last());
        let (s, l, actions) = run(session, link, events.drop_last());
        let (t, m, action) = transition(s, l, events.last());
        lemma_delivered_push(actions, action);
    }
}

/// The last block that the present upstream has sent; `None` where it has sent none yet.
pub open spec fn last_of_upstream(
    session: Session,
    link: LinkModel,
    events: Seq<EventModel>,
) -> Option<u32>
    decreases events.len(),
{
    if events.len() == 0 {
        None
    } else {
        let phase = run(session, link, events.drop_last()).0.phase;
        let before = last_of_upstream(session, link, events.drop_last());
        match (phase, events.last()) {
            (Phase::FailingOver, EventModel::UpstreamReady { abi, accepted }) => None,
            (Phase::Reading, EventModel::Upstream(frame)) => match crate::frame::block_num(frame) {
                Some(block) => Some(block),
                None => before,
            },
            _ => before,
        }
    }
}

/// Every upstream sends consecutive blocks. Where the client was handed none yet, they
/// start with the one that the request asks for; otherwise with that one or an earlier one.
/// None has the highest number of all.
pub open spec fn upstreams_stream(
    session: Session,
    link: LinkModel,
    events: Seq<EventModel>,
) -> bool
    decreases events.len(),
{
    events.len() > 0 ==> {
        let before = events.drop_last();
        let (s, l, actions) = run(session, link, before);
        &&& upstreams_stream(session, link, before)
        &&& s.phase == Phase::Reading && events.last() is Upstream ==> match crate::frame::block_num(
            events.last()->Upstream_0,
        ) {
            None => true,
            Some(block) => block < u32::MAX && match last_of_upstream(session, link, before) {
                Some(previous) => block == previous + 1,
                None => if delivered(actions).len() == 0 {
                    block == crate::bytes::u32_at(l.last_request->0, 1)
                } else {
                    block <= crate::bytes::u32_at(l.last_request->0, 1)
                },
            },
        }
    }
}

/// How a session stands that has handed on `n` blocks from `start` on, where the present
/// upstream has last sent `last`.
spec fn on_track(s: Session, l: LinkModel, start: u32, n: int, last: Option<u32>) -> bool {
    let next = start + n;
    let due = crate::bytes::u32_at(l.last_request->0, 1);
    &&& n >= 0
    &&& next <= u32::MAX
    &&& l.valid()
    &&& l.last_request is Some
    &&& s.last_seen_block == if n == 0 {
        None
    } else {
        Some((next - 1) as u32)
    }
    &&& s.phase == Phase::FailingOver || s.phase == Phase::Pausing || s.phase == Phase::Replaying
        || s.phase == Phase::Flushing ==> due == next
    &&& s.phase == Phase::Pausing || s.phase == Phase::Replaying || s.phase == Phase::Flushing
        ==> last is None
    &&& s.phase == Phase::Opening || s.phase == Phase::SendingAbi ==> n == 0
    &&& s.phase != Phase::Ended ==> match last {
        None => due == next && (n > 0 && (s.phase == Phase::Reading || s.phase == Phase::Forwarding)
            ==> s.restarting),
        Some(block) => n > 0 && block < next && (block < next - 1 && s.phase != Phase::FailingOver
            ==> s.restarting),
    }
}

proof fn lemma_on_track(
    s: Session,
    l: LinkModel,
    event: EventModel,
    start: u32,
    n: int,
    last: Option<u32>,
)
    requires
        on_track(s, l, start, n, last),
        s.phase == Phase::Reading && event is Upstream ==> match crate::frame::block_num(
            event->Upstream_0,
        ) {
            None => true,
            Some(block) => block < u32::MAX && match last {
                Some(previous) => block == previous + 1,
                None => if n == 0 {
                    block == crate::bytes::u32_at(l.last_request->0, 1)
                } else {
                    block <= crate::bytes::u32_at(l.last_request->0, 1)
                },
            },
        },
    ensures
        ({
            let (t, m, action) = transition(s, l, event);
            let now = match (s.phase, event) {
                (Phase::FailingOver, EventModel::UpstreamReady { abi, accepted }) => None,
                (Phase::Reading, EventModel::Upstream(frame)) => match crate::frame::block_num(
                    frame,
                ) {
                    Some(block) => Some(block),
                    None => last,
                },
                _ => last,
            };
            let block = match action {
                ActionModel::ToClient(frame) => crate::frame::block_num(frame),
                _ => None,
            };
            match block {
                Some(block) => block == start + n && on_track(t, m, start, n + 1, now),
                None => on_track(t, m, start, n, now),
            }
        }),
{
    law_link_stays_valid(s, l, event);
    if upstream_lost(s, event) && s.phase != Phase::Flushing {
        law_lost_upstream_is_replaced(s, l, event);
    }
}

/// However often upstreams are lost, the client's stream has neither a gap nor a
/// repetition: where every upstream sends consecutive blocks from the replayed start on, the
/// blocks that the client is handed are consecutive from the start of its request on.
pub proof fn law_blocks_consecutive_across_failovers(
    session: Session,
    link: LinkModel,
    events: Seq<EventModel>,
)
    requires
        session.last_seen_block is None,
        link.valid(),
        link.last_request is Some,
        upstreams_stream(session, link, events),
    ensures
        ({
            let start = crate::bytes::u32_at(link.last_request->0, 1);
            let blocks = delivered(run(session, link, events).2);
            forall|i: int| 0 <= i < blocks.len() ==> #[trigger] blocks[i] == start + i
        }),
{
    lemma_blocks_consecutive(session, link, events);
}

proof fn lemma_blocks_consecutive(session: Session, link: LinkModel, events: Seq<EventModel>)
    requires
        session.last_seen_block is None,
        link.valid(),
        link.last_request is Some,
        upstreams_stream(session, link, events),
    ensures
        ({
            let start = crate::bytes::u32_at(link.last_request->0, 1);
            let (s, l, actions) = run(session, link, events);
            let blocks = delivered(actions);
            &&& forall|i: int| 0 <= i < blocks.len() ==> #[trigger] blocks[i] == start + i
            &&& on_track(
                s,
                l,
                start,
                blocks.len() as int,
                last_of_upstream(session, link, events),
            )
        }),
    decreases events.len(),
{
    if events.len() > 0 {
        let start = crate::bytes::u32_at(link.last_request->0, 1);
        let before = events.drop_last();
        lemma_blocks_consecutive(session, link, before);
        let (s, l, actions) = run(session, link, before);
        let (t, m, action) = transition(s, l, events.last());
        let n = delivered(actions).len() as int;
        lemma_on_track(
            s,
            l,
            events.last(),
            start,
            n,
            last_of_upstream(session, link, before),
        );
        lemma_delivered_push(actions, action);
    }
}

} // verus!
