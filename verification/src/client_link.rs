//! What a client has sent: the request to replay when its upstream is lost, and the
//! frames that could not be forwarded.

use std::collections::VecDeque;
use vstd::prelude::*;

use crate::bytes::{push_bytes, push_u32, read_u32};
use crate::frame::{Frame, FrameModel};

verus! {

/// Maximum client frames buffered while an upstream is mid-failover, after which
/// further frames during the (typically sub-second) swap window are dropped.
pub const MAX_PENDING_FRAMES: usize = 1024;

/// The model of a `ClientLink`.
#[verifier::ext_equal]
pub struct LinkModel {
    /// The latest blocks request.
    pub last_request: Option<Seq<u8>>,
    /// The frames that wait to be forwarded, oldest first.
    pub pending: Seq<FrameModel>,
}

/// A blocks request, as far as replaying one needs it: variant `v0` (1) or `v1` (3),
/// with the start block behind it.
pub open spec fn blocks_request(bytes: Seq<u8>) -> bool {
    bytes.len() >= 5 && (bytes[0] == 1 || bytes[0] == 3)
}

/// The request with its start block replaced.
pub open spec fn restarted(request: Seq<u8>, start_block: u32) -> Seq<u8> {
    request.take(1) + crate::bytes::u32_bytes(start_block) + request.skip(5)
}

/// The block after `block`; the last one stands for its own successor.
pub open spec fn next_block(block: u32) -> u32 {
    if block == u32::MAX {
        u32::MAX
    } else {
        (block + 1) as u32
    }
}

impl LinkModel {
    /// What every link keeps: the recorded request is a blocks request, and no more
    /// frames wait than the buffer holds.
    pub open spec fn valid(self) -> bool {
        &&& self.last_request matches Some(request) ==> blocks_request(request)
        &&& self.pending.len() <= MAX_PENDING_FRAMES
    }

    /// After a client frame came: a blocks request is the one to replay from now on.
    pub open spec fn recorded(self, frame: FrameModel) -> LinkModel {
        match frame {
            FrameModel::Binary(bytes) => if blocks_request(bytes) {
                LinkModel { last_request: Some(bytes), ..self }
            } else {
                self
            },
            _ => self,
        }
    }

    /// After a client frame could not be forwarded: it waits, where there is room.
    pub open spec fn buffered(self, frame: FrameModel) -> LinkModel {
        if self.pending.len() < MAX_PENDING_FRAMES {
            LinkModel { pending: self.pending.push(frame), ..self }
        } else {
            self
        }
    }

    /// After the upstream was lost: the request resumes behind the last block that the
    /// client was sent.
    pub open spec fn resumed(self, last_seen_block: Option<u32>) -> LinkModel {
        match (self.last_request, last_seen_block) {
            (Some(request), Some(block)) => LinkModel {
                last_request: Some(restarted(request, next_block(block))),
                ..self
            },
            _ => self,
        }
    }

    /// The block at which the request starts.
    pub open spec fn start_block(self) -> Option<u32> {
        match self.last_request {
            Some(request) => Some(crate::bytes::u32_at(request, 1)),
            None => None,
        }
    }

    /// After the oldest waiting frame, if there is one, was forwarded.
    pub open spec fn popped(self) -> LinkModel {
        if self.pending.len() > 0 {
            LinkModel { pending: self.pending.drop_first(), ..self }
        } else {
            self
        }
    }
}

/// A restarted request starts at the new block; nothing else of it has changed.
pub proof fn law_restarted_request(request: Seq<u8>, start_block: u32)
    requires
        blocks_request(request),
    ensures
        blocks_request(restarted(request, start_block)),
        crate::bytes::u32_at(restarted(request, start_block), 1) == start_block,
        restarted(request, start_block).len() == request.len(),
        forall|i: int|
            0 <= i < request.len() && !(1 <= i < 5) ==> #[trigger] restarted(
                request,
                start_block,
            )[i] == request[i],
{
    let r = restarted(request, start_block);
    crate::bytes::lemma_u32_bytes(start_block);
    crate::bytes::lemma_u32_at(r, 1);
    assert(r.subrange(1, 5) =~= crate::bytes::u32_bytes(start_block));
}

/// A request with another start block.
pub open spec fn starting_at(
    request: crate::protocol::ShipRequest,
    start: u32,
) -> crate::protocol::ShipRequest {
    match request {
        crate::protocol::ShipRequest::GetBlocksV0 {
            start_block_num,
            end_block_num,
            max_messages_in_flight,
            fetch_block,
            fetch_traces,
            fetch_deltas,
        } => crate::protocol::ShipRequest::GetBlocksV0 {
            start_block_num: start,
            end_block_num,
            max_messages_in_flight,
            fetch_block,
            fetch_traces,
            fetch_deltas,
        },
        crate::protocol::ShipRequest::GetBlocksV1 {
            start_block_num,
            end_block_num,
            max_messages_in_flight,
            fetch_block,
            fetch_traces,
            fetch_deltas,
        } => crate::protocol::ShipRequest::GetBlocksV1 {
            start_block_num: start,
            end_block_num,
            max_messages_in_flight,
            fetch_block,
            fetch_traces,
            fetch_deltas,
        },
        other => other,
    }
}

/// An upstream reads a restarted request as the same request with the new start block.
pub proof fn law_restarted_request_decodes(request: Seq<u8>, start_block: u32)
    requires
        blocks_request(request),
    ensures
        crate::protocol::decodable(request) <==> crate::protocol::decodable(
            restarted(request, start_block),
        ),
        crate::protocol::request(restarted(request, start_block)) == starting_at(
            crate::protocol::request(request),
            start_block,
        ),
{
    let r = restarted(request, start_block);
    law_restarted_request(request, start_block);
    crate::bytes::lemma_u32_bytes(start_block);
    assert(crate::protocol::varuint_len(request) == 1);
    assert(crate::protocol::varuint_len(r) == 1);
    let b = crate::protocol::body(request);
    let c = crate::protocol::body(r);
    assert(b =~= request.skip(1));
    assert(c =~= r.skip(1));
    assert(c.subrange(0, 4) =~= r.subrange(1, 5));
    if b.len() >= 12 {
        assert(c.subrange(4, 8) =~= b.subrange(4, 8));
        assert(c.subrange(8, 12) =~= b.subrange(8, 12));
        assert(c.skip(12) =~= b.skip(12));
        let f = crate::protocol::flags_start(b);
        assert(crate::protocol::flags_start(c) == f);
        assert forall|k: int| 12 <= k < b.len() implies c[k] == b[k] by {
            assert(c[k] == r[k + 1]);
        }
        assert(crate::protocol::flag_at(c, f + 1) == crate::protocol::flag_at(b, f + 1));
        assert(crate::protocol::flag_at(c, f + 2) == crate::protocol::flag_at(b, f + 2));
        assert(crate::protocol::flag_at(c, f + 3) == crate::protocol::flag_at(b, f + 3));
    }
}

/// The latest blocks request is the one that is kept: a binary frame of at least five bytes
/// that starts with 1 or 3. Every other frame leaves the one before it in place. What waits
/// is not touched.
pub proof fn law_latest_request_kept(link: LinkModel, frame: FrameModel)
    ensures
        link.recorded(frame).pending == link.pending,
        link.recorded(frame).last_request == match frame {
            FrameModel::Binary(bytes) => if bytes.len() >= 5 && (bytes[0] == 1 || bytes[0] == 3) {
                Some(bytes)
            } else {
                link.last_request
            },
            _ => link.last_request,
        },
{
}

/// Frames wait in the order in which they came: one more waits behind all others, unless
/// 1024 wait already, and the one that leaves is the one that came first. The request is
/// not touched.
pub proof fn law_first_in_first_out(link: LinkModel, frame: FrameModel)
    ensures
        link.buffered(frame).last_request == link.last_request,
        link.popped().last_request == link.last_request,
        link.buffered(frame).pending == if link.pending.len() < 1024 {
            link.pending + seq![frame]
        } else {
            link.pending
        },
        link.popped().pending.len() == if link.pending.len() > 0 {
            link.pending.len() - 1
        } else {
            0
        },
        forall|i: int|
            0 <= i < link.popped().pending.len() ==> #[trigger] link.popped().pending[i]
                == link.pending[i + 1],
{
    assert(link.pending.push(frame) =~= link.pending + seq![frame]);
}

/// Resuming behind a block: the request then asks for the next block first, and for all
/// else as before. Without a block, or without a request, nothing changes. What waits is
/// not touched.
pub proof fn law_resume_behind_block(link: LinkModel, seen: Option<u32>)
    requires
        link.valid(),
    ensures
        ({
            let resumed = link.resumed(seen);
            &&& resumed.pending == link.pending
            &&& resumed.last_request is Some <==> link.last_request is Some
            &&& seen is None ==> resumed == link
            &&& match (link.last_request, seen) {
                (Some(request), Some(block)) => {
                    let patched = resumed.last_request->0;
                    &&& crate::bytes::u32_at(patched, 1) == if block < u32::MAX {
                        block + 1
                    } else {
                        block as int
                    }
                    &&& patched.len() == request.len()
                    &&& forall|i: int|
                        0 <= i < request.len() && !(1 <= i < 5) ==> #[trigger] patched[i]
                            == request[i]
                    &&& resumed.start_block() == Some(crate::bytes::u32_at(patched, 1))
                },
                (Some(request), None) => resumed.start_block() == Some(
                    crate::bytes::u32_at(request, 1),
                ),
                (None, _) => resumed.start_block() is None,
            }
        }),
{
    if let (Some(request), Some(block)) = (link.last_request, seen) {
        law_restarted_request(request, next_block(block));
    }
}

/// The link to a client, for the time that it is connected.
#[derive(Debug)]
pub struct ClientLink {
    last_request: Option<Vec<u8>>,
    pending: VecDeque<Frame>,
}

impl View for ClientLink {
    type V = LinkModel;

    closed spec fn view(&self) -> LinkModel {
        LinkModel {
            last_request: match self.last_request {
                Some(request) => Some(request@),
                None => None,
            },
            pending: self.pending@.map_values(|f: Frame| f@),
        }
    }
}

impl ClientLink {
    #[verifier::type_invariant]
    spec fn well_formed(self) -> bool {
        self@.valid()
    }

    /// The link to a client that has sent nothing yet.
    pub fn new() -> (link: ClientLink)
        ensures
            link@.last_request is None,
            link@.pending.len() == 0,
            link@.valid(),
    {
        ClientLink { last_request: None, pending: VecDeque::new() }
    }

    /// Takes note of a frame that the client sent: the latest blocks request is kept
    /// for replay.
    pub fn record(&mut self, frame: &Frame)
        ensures
            final(self)@ == old(self)@.recorded(frame@),
            final(self)@.valid(),
    {
        proof {
            use_type_invariant(&*self);
        }
        if let Frame::Binary(bin) = frame {
            if bin.len() >= 5 && (bin[0] == 1 || bin[0] == 3) {
                let mut request: Vec<u8> = Vec::new();
                push_bytes(&mut request, bin.as_slice());
                assert(request@ =~= bin@);
                self.last_request = Some(request);
            }
        }
    }

    /// Keeps a frame that could not be forwarded until the next upstream is there.
    /// `false`: the buffer is full and the frame is dropped.
    pub fn buffer(&mut self, frame: Frame) -> (kept: bool)
        ensures
            final(self)@ == old(self)@.buffered(frame@),
            kept == (old(self)@.pending.len() < MAX_PENDING_FRAMES),
            final(self)@.valid(),
    {
        proof {
            use_type_invariant(&*self);
        }
        if self.pending.len() < MAX_PENDING_FRAMES {
            let mut pending: VecDeque<Frame> = VecDeque::new();
            std::mem::swap(&mut self.pending, &mut pending);
            let ghost before = pending@;
            pending.push_back(frame);
            assert(pending@.map_values(|f: Frame| f@) =~= before.map_values(|f: Frame| f@).push(
                frame@,
            ));
            self.pending = pending;
            true
        } else {
            false
        }
    }

    /// The upstream was lost: patches the request to resume at the block after the last
    /// one that the client was sent, and returns the block at which it starts.
    pub fn resume(&mut self, last_seen_block: Option<u32>) -> (start: Option<u32>)
        ensures
            final(self)@ == old(self)@.resumed(last_seen_block),
            start == final(self)@.start_block(),
            final(self)@.valid(),
    {
        proof {
            use_type_invariant(&*self);
        }
        let mut request: Option<Vec<u8>> = None;
        std::mem::swap(&mut self.last_request, &mut request);
        match request {
            Some(request) => {
                let mut patched: Vec<u8> = request;
                if let Some(block) = last_seen_block {
                    let next: u32 = block.saturating_add(1);
                    let ghost before = patched@;
                    patched = restart(patched, next);
                    proof {
                        law_restarted_request(before, next);
                    }
                }
                let start: u32 = read_u32(patched.as_slice(), 1);
                self.last_request = Some(patched);
                Some(start)
            },
            None => None,
        }
    }

    /// The request to replay to the next upstream.
    pub fn replay(&self) -> (frame: Option<Frame>)
        ensures
            match frame {
                Some(f) => self@.last_request is Some && f@ == FrameModel::Binary(
                    self@.last_request->0,
                ),
                None => self@.last_request is None,
            },
    {
        match &self.last_request {
            Some(request) => {
                let mut bytes: Vec<u8> = Vec::new();
                push_bytes(&mut bytes, request.as_slice());
                assert(bytes@ =~= request@);
                Some(Frame::Binary(bytes))
            },
            None => None,
        }
    }

    /// The oldest frame that waits to be forwarded. It goes on waiting until it is known
    /// to have been sent.
    pub fn first_pending(&self) -> (frame: Option<Frame>)
        ensures
            match frame {
                Some(f) => self@.pending.len() > 0 && f@ == self@.pending[0],
                None => self@.pending.len() == 0,
            },
    {
        if self.pending.len() > 0 {
            Some(self.pending[0].clone())
        } else {
            None
        }
    }

    /// The oldest frame that waits has been forwarded.
    pub fn pending_sent(&mut self)
        ensures
            final(self)@ == old(self)@.popped(),
            final(self)@.valid(),
    {
        proof {
            use_type_invariant(&*self);
        }
        let mut pending: VecDeque<Frame> = VecDeque::new();
        std::mem::swap(&mut self.pending, &mut pending);
        let ghost before = pending@;
        let frame = pending.pop_front();
        proof {
            if frame is Some {
                assert(pending@.map_values(|f: Frame| f@) =~= before.map_values(
                    |f: Frame| f@,
                ).drop_first());
            }
        }
        self.pending = pending;
    }
}

/// The request with its start block replaced.
fn restart(request: Vec<u8>, start_block: u32) -> (patched: Vec<u8>)
    requires
        blocks_request(request@),
    ensures
        patched@ == restarted(request@, start_block),
{
    let mut start: Vec<u8> = Vec::new();
    push_u32(&mut start, start_block);
    proof {
        crate::bytes::lemma_u32_bytes(start_block);
        assert(start@ =~= crate::bytes::u32_bytes(start_block));
    }
    let mut patched: Vec<u8> = request;
    patched[1] = start[0];
    patched[2] = start[1];
    patched[3] = start[2];
    patched[4] = start[3];
    assert(patched@ =~= restarted(request@, start_block));
    patched
}

} // verus!
