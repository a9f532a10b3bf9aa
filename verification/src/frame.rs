//! WebSocket frames, as plain values.

use vstd::prelude::*;

use crate::bytes::{push_bytes, read_u32};

verus! {

/// A WebSocket message.
#[derive(Debug, PartialEq, Eq)]
pub enum Frame {
    Text(String),
    Binary(Vec<u8>),
    Ping(Vec<u8>),
    Pong(Vec<u8>),
    /// A close frame: its code and reason, where it has them.
    Close(Option<(u16, String)>),
}

/// The model of a `Frame`.
pub enum FrameModel {
    Text(Seq<char>),
    Binary(Seq<u8>),
    Ping(Seq<u8>),
    Pong(Seq<u8>),
    Close(Option<(u16, Seq<char>)>),
}

impl View for Frame {
    type V = FrameModel;

    open spec fn view(&self) -> FrameModel {
        match self {
            Frame::Text(t) => FrameModel::Text(t@),
            Frame::Binary(b) => FrameModel::Binary(b@),
            Frame::Ping(b) => FrameModel::Ping(b@),
            Frame::Pong(b) => FrameModel::Pong(b@),
            Frame::Close(None) => FrameModel::Close(None),
            Frame::Close(Some((code, reason))) => FrameModel::Close(Some((*code, reason@))),
        }
    }
}

fn copy_bytes(bytes: &Vec<u8>) -> (copy: Vec<u8>)
    ensures
        copy@ == bytes@,
{
    let mut copy: Vec<u8> = Vec::new();
    push_bytes(&mut copy, bytes.as_slice());
    assert(copy@ =~= bytes@);
    copy
}

impl Clone for Frame {
    fn clone(&self) -> (copy: Self)
        ensures
            copy@ == self@,
    {
        match self {
            Frame::Text(text) => Frame::Text(text.clone()),
            Frame::Binary(bytes) => Frame::Binary(copy_bytes(bytes)),
            Frame::Ping(bytes) => Frame::Ping(copy_bytes(bytes)),
            Frame::Pong(bytes) => Frame::Pong(copy_bytes(bytes)),
            Frame::Close(None) => Frame::Close(None),
            Frame::Close(Some((code, reason))) => Frame::Close(Some((*code, reason.clone()))),
        }
    }
}

/// The number of the block that a frame delivers: of a `get_blocks_result_v0` or `v1`
/// with a `this_block`. No other frame has one. Layout: variant (1), head (36), last
/// irreversible (36), the flag of `this_block` at 73, its number at 74.
pub open spec fn block_num(frame: FrameModel) -> Option<u32> {
    match frame {
        FrameModel::Binary(b) => if b.len() >= 78 && (b[0] == 1 || b[0] == 2) && b[73] == 1 {
            Some(crate::bytes::u32_at(b, 74))
        } else {
            None
        },
        _ => None,
    }
}

/// Extract the `this_block.block_num` from a `get_blocks_result_v0/v1` frame, if
/// present. Returns `None` for any other frame (status, head keep-alive).
pub fn extract_block_num(msg: &Frame) -> (num: Option<u32>)
    ensures
        num == block_num(msg@),
{
    if let Frame::Binary(bin) = msg {
        if bin.len() >= 78 && (bin[0] == 1 || bin[0] == 2) && bin[73] == 1 {
            return Some(read_u32(bin.as_slice(), 74));
        }
    }
    None
}

/// The block number of an encoded blocks result is the number that it was encoded for.
pub proof fn law_block_num_of_blocks_result(
    head_block: u32,
    lib_block: u32,
    this_block: u32,
    block: Option<Seq<u8>>,
    traces: Option<Seq<u8>>,
    deltas: Option<Seq<u8>>,
)
    ensures
        block_num(
            FrameModel::Binary(
                crate::protocol::blocks_result(
                    head_block,
                    lib_block,
                    this_block,
                    block,
                    traces,
                    deltas,
                ),
            ),
        ) == Some(this_block),
{
    let b = crate::protocol::blocks_result(
        head_block,
        lib_block,
        this_block,
        block,
        traces,
        deltas,
    );
    crate::bytes::lemma_u32_bytes(head_block);
    crate::bytes::lemma_u32_bytes(lib_block);
    crate::bytes::lemma_u32_bytes(this_block);
    crate::bytes::lemma_u32_bytes(crate::protocol::previous_block(this_block));
    assert(crate::protocol::varuint(1) =~= seq![1u8]);
    assert(b[0] == 1);
    assert(b[73] == 1);
    assert(b.subrange(74, 78) =~= crate::bytes::u32_bytes(this_block));
}

/// A status result delivers no block.
pub proof fn law_no_block_in_status_result(
    head_block: u32,
    lib_block: u32,
    chain_id: Seq<u8>,
    trace_begin: u32,
    trace_end: u32,
)
    ensures
        block_num(
            FrameModel::Binary(
                crate::protocol::status_result(
                    head_block,
                    lib_block,
                    chain_id,
                    trace_begin,
                    trace_end,
                ),
            ),
        ) is None,
{
    let b = crate::protocol::status_result(
        head_block,
        lib_block,
        chain_id,
        trace_begin,
        trace_end,
    );
    assert(crate::protocol::varuint(0) =~= seq![0u8]);
    assert(b[0] == 0);
}

/// Which frames deliver a block, and which one: a binary frame of at least 78 bytes whose
/// first byte is 1 or 2 and in which a 1 stands at 73; the number follows it in four bytes,
/// the least significant first. What else the frame holds does not matter.
pub proof fn law_block_num_layout(frame: FrameModel)
    ensures
        match frame {
            FrameModel::Binary(b) => {
                &&& block_num(frame) is Some <==> b.len() >= 78 && (b[0] == 1 || b[0] == 2)
                    && b[73] == 1
                &&& block_num(frame) matches Some(num) ==> num == b[74] + 0x100 * b[75] + 0x1_0000
                    * b[76] + 0x100_0000 * b[77]
            },
            _ => block_num(frame) is None,
        },
{
    if let FrameModel::Binary(b) = frame {
        if b.len() >= 78 {
            crate::bytes::law_u32_at_bytes(b, 74);
        }
    }
}

} // verus!
