//! The SHiP binary protocol, as packed by `fc::raw`.
//!
//! Every message is a variant index (a varuint32) and the packed fields of that variant.
//!
//! Request variants (client to server): 0 `get_status_request_v0`,
//! 1 `get_blocks_request_v0`, 2 `get_blocks_ack_request_v0`,
//! 3 `get_blocks_request_v1`, 4 `get_status_request_v1`.
//!
//! Result variants (server to client): 0 `get_status_result_v0`,
//! 1 `get_blocks_result_v0`, 2 `get_blocks_result_v1`, 3 `get_status_result_v1`.

use vstd::prelude::*;

use crate::bytes::{push_bytes, push_u32, read_u32};

verus! {

broadcast use vstd::seq_lib::group_seq_properties;

// ---------------------------------------------------------------------------
// varuint32
// ---------------------------------------------------------------------------

/// The varuint encoding of `v`: seven bits a byte, least significant first, the
/// high bit set on every byte but the last.
pub open spec fn varuint(v: nat) -> Seq<u8>
    decreases v,
{
    if v < 128 {
        seq![v as u8]
    } else {
        seq![(v % 128 + 128) as u8] + varuint(v / 128)
    }
}

/// How many bytes of `s` a varuint takes: through the first byte without the high
/// bit, or all of `s` where every byte has it.
pub open spec fn varuint_len(s: Seq<u8>) -> nat
    decreases s.len(),
{
    if s.len() == 0 {
        0
    } else if s[0] < 128 {
        1
    } else {
        1 + varuint_len(s.drop_first())
    }
}

/// The number that the varuint at the start of `s` stands for.
pub open spec fn varuint_sum(s: Seq<u8>) -> nat
    decreases s.len(),
{
    if s.len() == 0 {
        0
    } else if s[0] < 128 {
        s[0] as nat
    } else {
        (s[0] - 128) as nat + 128 * varuint_sum(s.drop_first())
    }
}

/// The 32 low bits of the varuint at the start of `s`.
pub open spec fn varuint_value(s: Seq<u8>) -> u32 {
    (varuint_sum(s) % 0x1_0000_0000) as u32
}

/// A varuint of at most five bytes stands at the start of `s`: as many as a 32-bit
/// number needs.
pub open spec fn varuint_fits(s: Seq<u8>) -> bool {
    varuint_len(s) <= 5
}

spec fn pow128(n: nat) -> nat
    decreases n,
{
    if n == 0 {
        1
    } else {
        128 * pow128((n - 1) as nat)
    }
}

proof fn lemma_varuint_sum_bound(s: Seq<u8>)
    ensures
        varuint_sum(s) < pow128(varuint_len(s)),
    decreases s.len(),
{
    if s.len() > 0 && s[0] >= 128 {
        lemma_varuint_sum_bound(s.drop_first());
    }
    reveal_with_fuel(pow128, 2);
}

proof fn lemma_pow128_small(n: nat)
    requires
        n <= 5,
    ensures
        pow128(n) <= 0x8_0000_0000,
{
    reveal_with_fuel(pow128, 6);
}

/// Where a varuint ends does not lie behind the end of the bytes.
pub proof fn lemma_varuint_len_bound(s: Seq<u8>)
    ensures
        varuint_len(s) <= s.len(),
        s.len() > 0 ==> varuint_len(s) > 0,
    decreases s.len(),
{
    if s.len() > 0 && s[0] >= 128 {
        lemma_varuint_len_bound(s.drop_first());
    }
}

/// Decoding the encoding of a number, whatever follows it, gives the number and the
/// length of the encoding.
pub proof fn law_varuint_roundtrip(v: nat, tail: Seq<u8>)
    ensures
        varuint_len(varuint(v) + tail) == varuint(v).len(),
        varuint_sum(varuint(v) + tail) == v,
    decreases v,
{
    let s = varuint(v) + tail;
    if v >= 128 {
        law_varuint_roundtrip(v / 128, tail);
        assert(s.drop_first() =~= varuint(v / 128) + tail);
        assert(s[0] == (v % 128 + 128) as u8);
    } else {
        assert(s[0] == v as u8);
    }
}

/// A 32-bit number takes one to five bytes, and comes back unchanged whatever
/// follows it.
pub proof fn law_varuint32_roundtrip(v: u32, tail: Seq<u8>)
    ensures
        1 <= varuint(v as nat).len() <= 5,
        varuint_fits(varuint(v as nat) + tail),
        varuint_value(varuint(v as nat) + tail) == v,
        varuint_len(varuint(v as nat) + tail) == varuint(v as nat).len(),
{
    reveal_with_fuel(varuint, 6);
    law_varuint_roundtrip(v as nat, tail);
}

/// Encode a varuint32 (used as variant index prefix).
pub fn encode_varuint32(val: u32) -> (buf: Vec<u8>)
    ensures
        buf@ == varuint(val as nat),
{
    let mut rest: u32 = val;
    let mut buf: Vec<u8> = Vec::new();
    while rest >= 128
        invariant
            buf@ + varuint(rest as nat) == varuint(val as nat),
        decreases rest,
    {
        let ghost before = buf@;
        let low: u8 = (rest % 128) as u8 + 128;
        buf.push(low);
        assert(before + (seq![low] + varuint(rest as nat / 128)) =~= buf@ + varuint(
            rest as nat / 128,
        ));
        rest = rest / 128;
    }
    buf.push(rest as u8);
    buf
}

/// The varuint at `data[at..]`: its number and the bytes it takes.
fn varuint_from(data: &[u8], at: usize) -> (r: (u64, usize))
    requires
        at <= data@.len(),
        varuint_fits(data@.skip(at as int)),
    ensures
        r.0 == varuint_sum(data@.skip(at as int)),
        r.1 == varuint_len(data@.skip(at as int)),
    decreases data@.len() - at,
{
    let ghost s = data@.skip(at as int);
    if at == data.len() {
        return (0, 0);
    }
    let byte: u8 = data[at];
    assert(s[0] == byte);
    if byte < 128 {
        return (byte as u64, 1);
    }
    assert(s.drop_first() =~= data@.skip(at + 1));
    let (sum, taken): (u64, usize) = varuint_from(data, at + 1);
    proof {
        lemma_varuint_sum_bound(s);
        lemma_pow128_small(varuint_len(s));
        lemma_varuint_sum_bound(s.drop_first());
        lemma_pow128_small(varuint_len(s.drop_first()));
    }
    ((byte - 128) as u64 + 128 * sum, taken + 1)
}

/// Decode a varuint32, returning (value, bytes_consumed).
///
/// Where the bytes end before the varuint does, all of them are consumed.
pub fn decode_varuint32(data: &[u8]) -> (r: (u32, usize))
    requires
        varuint_fits(data@),
    ensures
        r.0 == varuint_value(data@),
        r.1 == varuint_len(data@),
{
    assert(data@.skip(0) =~= data@);
    let (sum, taken): (u64, usize) = varuint_from(data, 0);
    ((sum % 0x1_0000_0000) as u32, taken)
}

// ---------------------------------------------------------------------------
// Block positions
// ---------------------------------------------------------------------------

/// The block id that stands for block `block_num`: its number, then a pattern
/// derived from it.
pub open spec fn fake_id(block_num: u32) -> Seq<u8> {
    Seq::new(
        32,
        |i: int|
            if i < 4 {
                crate::bytes::u32_bytes(block_num)[i]
            } else {
                ((block_num * 31 + i) % 256) as u8
            },
    )
}

/// A packed block position: the block number, then the block id.
pub open spec fn position(block_num: u32, block_id: Seq<u8>) -> Seq<u8> {
    crate::bytes::u32_bytes(block_num) + block_id
}

/// The position of block `block_num` under its fake id.
pub open spec fn fake_position(block_num: u32) -> Seq<u8> {
    position(block_num, fake_id(block_num))
}

/// Generate a deterministic fake block ID from a block number.
pub fn fake_block_id(block_num: u32) -> (id: [u8; 32])
    ensures
        id@ == fake_id(block_num),
{
    let mut id: [u8; 32] = [0u8; 32];
    let mut num: Vec<u8> = Vec::new();
    push_u32(&mut num, block_num);
    proof {
        crate::bytes::lemma_u32_bytes(block_num);
    }
    let mut i: usize = 0;
    while i < 32
        invariant
            i <= 32,
            num@ == crate::bytes::u32_bytes(block_num),
            num@.len() == 4,
            forall|j: int| 0 <= j < i ==> id@[j] == fake_id(block_num)[j],
        decreases 32 - i,
    {
        if i < 4 {
            id[i] = num[i];
        } else {
            id[i] = ((block_num as u64 * 31 + i as u64) % 256) as u8;
        }
        i += 1;
    }
    assert(id@ =~= fake_id(block_num));
    id
}

/// Encode a block_position: uint32_le block_num + checksum256 block_id.
pub fn encode_block_position(block_num: u32, block_id: &[u8; 32]) -> (buf: Vec<u8>)
    ensures
        buf@ == position(block_num, block_id@),
{
    let mut buf: Vec<u8> = Vec::with_capacity(36);
    push_u32(&mut buf, block_num);
    push_bytes(&mut buf, block_id.as_slice());
    assert(buf@ =~= position(block_num, block_id@));
    buf
}

// ---------------------------------------------------------------------------
// Results
// ---------------------------------------------------------------------------

/// The fields of a `get_status_result_v0`, packed.
pub open spec fn status_fields(
    head_block: u32,
    lib_block: u32,
    chain_id: Seq<u8>,
    trace_begin: u32,
    trace_end: u32,
) -> Seq<u8> {
    fake_position(head_block) + fake_position(lib_block) + crate::bytes::u32_bytes(trace_begin)
        + crate::bytes::u32_bytes(trace_end) + crate::bytes::u32_bytes(1)
        + crate::bytes::u32_bytes((head_block + 1) as u32) + chain_id
}

/// A whole `get_status_result_v0` message: variant 0 and its fields.
pub open spec fn status_result(
    head_block: u32,
    lib_block: u32,
    chain_id: Seq<u8>,
    trace_begin: u32,
    trace_end: u32,
) -> Seq<u8> {
    varuint(0) + status_fields(head_block, lib_block, chain_id, trace_begin, trace_end)
}

/// Encode a get_status_result_v0 as the `result` variant (index 0), for a server
/// whose traces cover the blocks from `trace_begin` up to, but without, `trace_end`.
///
/// Fields: head, last_irreversible, trace_begin_block, trace_end_block,
/// chain_state_begin_block, chain_state_end_block, chain_id.
pub fn encode_status_result_v0_with_range(
    head_block: u32,
    lib_block: u32,
    chain_id: &[u8; 32],
    trace_begin: u32,
    trace_end: u32,
) -> (buf: Vec<u8>)
    requires
        head_block < u32::MAX,
    ensures
        buf@ == status_result(head_block, lib_block, chain_id@, trace_begin, trace_end),
{
    let head_id = fake_block_id(head_block);
    let lib_id = fake_block_id(lib_block);
    let mut buf: Vec<u8> = encode_varuint32(0);
    push_bytes(&mut buf, encode_block_position(head_block, &head_id).as_slice());
    push_bytes(&mut buf, encode_block_position(lib_block, &lib_id).as_slice());
    push_u32(&mut buf, trace_begin);
    push_u32(&mut buf, trace_end);
    push_u32(&mut buf, 1);
    push_u32(&mut buf, head_block + 1);
    // chain_id is a binary extension of v0; it is always sent.
    push_bytes(&mut buf, chain_id.as_slice());
    assert(buf@ =~= status_result(head_block, lib_block, chain_id@, trace_begin, trace_end));
    buf
}

/// Encode a get_status_result_v0 for a server that has the traces of every block
/// from block 1 through its head.
pub fn encode_status_result_v0(head_block: u32, lib_block: u32, chain_id: &[u8; 32]) -> (buf: Vec<
    u8,
>)
    requires
        head_block < u32::MAX,
    ensures
        buf@ == status_result(head_block, lib_block, chain_id@, 1, (head_block + 1) as u32),
{
    encode_status_result_v0_with_range(head_block, lib_block, chain_id, 1, head_block + 1)
}

/// A packed `optional<bytes>`: a flag, then the length (its 32 low bits) and the data.
pub open spec fn optional_bytes(data: Option<Seq<u8>>) -> Seq<u8> {
    match data {
        Some(d) => seq![1u8] + varuint(d.len() % 0x1_0000_0000) + d,
        None => seq![0u8],
    }
}

/// The bytes behind an optional slice.
pub open spec fn payload_of(data: Option<&[u8]>) -> Option<Seq<u8>> {
    match data {
        Some(d) => Some(d@),
        None => None,
    }
}

/// The number of the block before `block_num`; block 0 has none and stands for itself.
pub open spec fn previous_block(block_num: u32) -> u32 {
    if block_num > 0 {
        (block_num - 1) as u32
    } else {
        0
    }
}

/// A whole `get_blocks_result_v0` message: variant 1, the head and the last
/// irreversible block, this block and the one before it, and the three payloads.
pub open spec fn blocks_result(
    head_block: u32,
    lib_block: u32,
    this_block: u32,
    block: Option<Seq<u8>>,
    traces: Option<Seq<u8>>,
    deltas: Option<Seq<u8>>,
) -> Seq<u8> {
    varuint(1) + fake_position(head_block) + fake_position(lib_block) + seq![1u8] + fake_position(
        this_block,
    ) + seq![1u8] + fake_position(previous_block(this_block)) + optional_bytes(block)
        + optional_bytes(traces) + optional_bytes(deltas)
}

/// Encode an optional<bytes> field: flag byte + varuint32 length + data.
fn encode_optional_bytes(buf: &mut Vec<u8>, data: Option<&[u8]>)
    ensures
        final(buf)@ == old(buf)@ + optional_bytes(payload_of(data)),
{
    match data {
        Some(d) => {
            buf.push(1);
            let len: u64 = d.len() as u64 % 0x1_0000_0000;
            push_bytes(buf, encode_varuint32(len as u32).as_slice());
            push_bytes(buf, d);
            assert(buf@ =~= old(buf)@ + optional_bytes(payload_of(data)));
        },
        None => {
            buf.push(0);
            assert(buf@ =~= old(buf)@ + optional_bytes(payload_of(data)));
        },
    }
}

/// Encode a get_blocks_result_v0 with optional data payloads.
///
/// When `block_data`, `traces`, or `deltas` are `Some`, the optional is encoded as
/// present (flag byte 1) followed by a length-prefixed byte array (fc::raw `bytes`).
pub fn encode_blocks_result_v0_with_data(
    head_block: u32,
    lib_block: u32,
    this_block_num: u32,
    block_data: Option<&[u8]>,
    traces: Option<&[u8]>,
    deltas: Option<&[u8]>,
) -> (buf: Vec<u8>)
    ensures
        buf@ == blocks_result(
            head_block,
            lib_block,
            this_block_num,
            payload_of(block_data),
            payload_of(traces),
            payload_of(deltas),
        ),
{
    let head_id = fake_block_id(head_block);
    let lib_id = fake_block_id(lib_block);
    let this_id = fake_block_id(this_block_num);
    let prev_num: u32 = if this_block_num > 0 {
        this_block_num - 1
    } else {
        0
    };
    let prev_id = fake_block_id(prev_num);

    let mut buf: Vec<u8> = encode_varuint32(1);
    push_bytes(&mut buf, encode_block_position(head_block, &head_id).as_slice());
    push_bytes(&mut buf, encode_block_position(lib_block, &lib_id).as_slice());
    // this_block: optional present
    buf.push(1);
    push_bytes(&mut buf, encode_block_position(this_block_num, &this_id).as_slice());
    // prev_block: optional present
    buf.push(1);
    push_bytes(&mut buf, encode_block_position(prev_num, &prev_id).as_slice());
    encode_optional_bytes(&mut buf, block_data);
    encode_optional_bytes(&mut buf, traces);
    encode_optional_bytes(&mut buf, deltas);
    assert(buf@ =~= blocks_result(
        head_block,
        lib_block,
        this_block_num,
        payload_of(block_data),
        payload_of(traces),
        payload_of(deltas),
    ));
    buf
}

/// The payload of `size` bytes that stands for the data of block `block_num`: one
/// seed byte throughout, stamped with the block number where there is room for it.
pub open spec fn fake_data(block_num: u32, size: nat) -> Seq<u8> {
    Seq::new(
        size,
        |i: int|
            if size >= 4 && i < 4 {
                crate::bytes::u32_bytes(block_num)[i]
            } else {
                (block_num * 7 % 256) as u8
            },
    )
}

/// Generate deterministic fake data of `size` bytes for a given block number.
pub fn generate_fake_data(block_num: u32, size: usize) -> (data: Vec<u8>)
    ensures
        data@ == fake_data(block_num, size as nat),
{
    let seed: u8 = (block_num as u64 * 7 % 256) as u8;
    let mut data: Vec<u8> = Vec::new();
    if size >= 4 {
        push_u32(&mut data, block_num);
    }
    proof {
        crate::bytes::lemma_u32_bytes(block_num);
    }
    while data.len() < size
        invariant
            data.len() <= size,
            seed == (block_num * 7 % 256) as u8,
            size >= 4 ==> data.len() >= 4,
            forall|j: int|
                0 <= j < data.len() ==> data@[j] == fake_data(block_num, size as nat)[j],
        decreases size - data.len(),
    {
        data.push(seed);
    }
    assert(data@ =~= fake_data(block_num, size as nat));
    data
}

// ---------------------------------------------------------------------------
// Requests
// ---------------------------------------------------------------------------

/// Parsed request from a client.
#[derive(Debug, Clone, Copy, PartialEq, Eq)]
pub enum ShipRequest {
    GetStatusV0,
    GetStatusV1,
    GetBlocksV0 {
        start_block_num: u32,
        end_block_num: u32,
        max_messages_in_flight: u32,
        fetch_block: bool,
        fetch_traces: bool,
        fetch_deltas: bool,
    },
    GetBlocksV1 {
        start_block_num: u32,
        end_block_num: u32,
        max_messages_in_flight: u32,
        fetch_block: bool,
        fetch_traces: bool,
        fetch_deltas: bool,
    },
    GetBlocksAckV0 { num_messages: u32 },
    Unknown(u32),
}

/// What follows the variant index of a message.
pub open spec fn body(data: Seq<u8>) -> Seq<u8> {
    data.skip(varuint_len(data) as int)
}

/// Whether a non-zero byte stands at `at`.
pub open spec fn flag_at(s: Seq<u8>, at: int) -> bool {
    0 <= at < s.len() && s[at] != 0
}

/// Where the flags of a blocks request start in its body: behind three numbers and
/// the count of `have_positions`.
pub open spec fn flags_start(body: Seq<u8>) -> int {
    12 + varuint_len(body.skip(12)) as int
}

/// The request that `data` stands for.
pub open spec fn request(data: Seq<u8>) -> ShipRequest {
    let index = varuint_value(data);
    let b = body(data);
    let f = flags_start(b);
    if data.len() == 0 {
        ShipRequest::Unknown(u32::MAX)
    } else if index == 0 {
        ShipRequest::GetStatusV0
    } else if index == 4 {
        ShipRequest::GetStatusV1
    } else if index == 1 && b.len() >= 12 {
        ShipRequest::GetBlocksV0 {
            start_block_num: crate::bytes::u32_at(b, 0),
            end_block_num: crate::bytes::u32_at(b, 4),
            max_messages_in_flight: crate::bytes::u32_at(b, 8),
            fetch_block: flag_at(b, f + 1),
            fetch_traces: flag_at(b, f + 2),
            fetch_deltas: flag_at(b, f + 3),
        }
    } else if index == 3 && b.len() >= 12 {
        ShipRequest::GetBlocksV1 {
            start_block_num: crate::bytes::u32_at(b, 0),
            end_block_num: crate::bytes::u32_at(b, 4),
            max_messages_in_flight: crate::bytes::u32_at(b, 8),
            fetch_block: flag_at(b, f + 1),
            fetch_traces: flag_at(b, f + 2),
            fetch_deltas: flag_at(b, f + 3),
        }
    } else if index == 2 && b.len() >= 4 {
        ShipRequest::GetBlocksAckV0 { num_messages: crate::bytes::u32_at(b, 0) }
    } else {
        ShipRequest::Unknown(index)
    }
}

/// Bytes whose varuints fit: the variant index, and in a blocks request the count
/// of `have_positions`.
pub open spec fn decodable(data: Seq<u8>) -> bool {
    &&& varuint_fits(data)
    &&& (varuint_value(data) == 1 || varuint_value(data) == 3) && body(data).len() >= 12
        ==> varuint_fits(body(data).skip(12))
}

/// The bytes at `data[at..]`, without copying.
fn tail(data: &[u8], at: usize) -> (rest: &[u8])
    requires
        at <= data@.len(),
    ensures
        rest@ == data@.skip(at as int),
{
    let n: usize = data.len();
    let rest = vstd::slice::slice_subrange(data, at, n);
    assert(rest@ =~= data@.skip(at as int));
    rest
}

/// Whether the varuint at the start of `data` takes at most five bytes.
fn has_short_varuint(data: &[u8]) -> (r: bool)
    ensures
        r == varuint_fits(data@),
{
    let mut i: usize = 0;
    assert(data@.skip(0) =~= data@);
    while i < data.len() && i < 5 && data[i] >= 128
        invariant
            i <= data@.len(),
            i <= 5,
            varuint_len(data@) == i + varuint_len(data@.skip(i as int)),
        decreases data@.len() - i,
    {
        assert(data@.skip(i as int).drop_first() =~= data@.skip(i + 1));
        i += 1;
    }
    proof {
        lemma_varuint_len_bound(data@.skip(i as int));
    }
    i < 5 || i == data.len()
}

/// Whether `data` can be decoded as a request: no varuint in it is longer than
/// five bytes.
pub fn is_decodable(data: &[u8]) -> (r: bool)
    ensures
        r == decodable(data@),
{
    if !has_short_varuint(data) {
        return false;
    }
    let (index, consumed): (u32, usize) = decode_varuint32(data);
    proof {
        lemma_varuint_len_bound(data@);
    }
    let payload = tail(data, consumed);
    if (index == 1 || index == 3) && payload.len() >= 12 {
        has_short_varuint(tail(payload, 12))
    } else {
        true
    }
}

/// The flag at `s[at]`; an absent one is unset.
fn read_flag(s: &[u8], at: usize) -> (r: bool)
    ensures
        r == flag_at(s@, at as int),
{
    if at < s.len() {
        s[at] != 0
    } else {
        false
    }
}

/// Decode a binary request message from the client.
pub fn decode_request(data: &[u8]) -> (r: ShipRequest)
    requires
        decodable(data@),
    ensures
        r == request(data@),
{
    if data.len() == 0 {
        return ShipRequest::Unknown(u32::MAX);
    }
    let (variant_index, consumed): (u32, usize) = decode_varuint32(data);
    proof {
        lemma_varuint_len_bound(data@);
    }
    let payload = tail(data, consumed);

    if variant_index == 0 {
        ShipRequest::GetStatusV0
    } else if variant_index == 4 {
        ShipRequest::GetStatusV1
    } else if variant_index == 2 {
        // get_blocks_ack_request_v0
        if payload.len() >= 4 {
            ShipRequest::GetBlocksAckV0 { num_messages: read_u32(payload, 0) }
        } else {
            ShipRequest::Unknown(2)
        }
    } else if variant_index == 1 || variant_index == 3 {
        // get_blocks_request_v0 / v1 (the same layout, v1 with one more flag)
        if payload.len() >= 12 {
            let start: u32 = read_u32(payload, 0);
            let end: u32 = read_u32(payload, 4);
            let max_msg: u32 = read_u32(payload, 8);
            let rest = tail(payload, 12);
            // After the 3 u32s: varuint32 have_positions count, then bools
            let (_, pos_consumed): (u32, usize) = decode_varuint32(rest);
            proof {
                lemma_varuint_len_bound(rest@);
            }
            let flags = tail(rest, pos_consumed);
            assert(flags@ =~= payload@.skip(flags_start(payload@)));
            let fetch_block = read_flag(flags, 1);
            let fetch_traces = read_flag(flags, 2);
            let fetch_deltas = read_flag(flags, 3);
            if variant_index == 1 {
                ShipRequest::GetBlocksV0 {
                    start_block_num: start,
                    end_block_num: end,
                    max_messages_in_flight: max_msg,
                    fetch_block,
                    fetch_traces,
                    fetch_deltas,
                }
            } else {
                ShipRequest::GetBlocksV1 {
                    start_block_num: start,
                    end_block_num: end,
                    max_messages_in_flight: max_msg,
                    fetch_block,
                    fetch_traces,
                    fetch_deltas,
                }
            }
        } else {
            ShipRequest::Unknown(variant_index)
        }
    } else {
        ShipRequest::Unknown(variant_index)
    }
}

// ---------------------------------------------------------------------------
// The bytes of messages
// ---------------------------------------------------------------------------

/// What one to five bytes of a varuint stand for: seven bits each, the least significant
/// first. It ends with the first byte below 128.
pub proof fn law_varuint_bytes(s: Seq<u8>)
    ensures
        s.len() >= 1 && s[0] < 128 ==> varuint_len(s) == 1 && varuint_sum(s) == s[0],
        s.len() >= 2 && s[0] >= 128 && s[1] < 128 ==> varuint_len(s) == 2 && varuint_sum(s) == (s[0]
            - 128) + 128 * s[1],
        s.len() >= 3 && s[0] >= 128 && s[1] >= 128 && s[2] < 128 ==> varuint_len(s) == 3
            && varuint_sum(s) == (s[0] - 128) + 128 * (s[1] - 128) + 16384 * s[2],
        s.len() >= 4 && s[0] >= 128 && s[1] >= 128 && s[2] >= 128 && s[3] < 128 ==> varuint_len(s)
            == 4 && varuint_sum(s) == (s[0] - 128) + 128 * (s[1] - 128) + 16384 * (s[2] - 128)
            + 2097152 * s[3],
        s.len() >= 5 && s[0] >= 128 && s[1] >= 128 && s[2] >= 128 && s[3] >= 128 && s[4] < 128
            ==> varuint_len(s) == 5 && varuint_sum(s) == (s[0] - 128) + 128 * (s[1] - 128) + 16384
            * (s[2] - 128) + 2097152 * (s[3] - 128) + 268435456 * s[4],
{
    reveal_with_fuel(varuint_len, 6);
    reveal_with_fuel(varuint_sum, 6);
    if s.len() >= 1 {
        let t = s.drop_first();
        if s.len() >= 2 {
            assert(t[0] == s[1]);
            let u = t.drop_first();
            if s.len() >= 3 {
                assert(u[0] == s[2]);
                let v = u.drop_first();
                if s.len() >= 4 {
                    assert(v[0] == s[3]);
                    if s.len() >= 5 {
                        assert(v.drop_first()[0] == s[4]);
                    }
                }
            }
        }
    }
}

/// A number is written with as few bytes as it takes: the last one is not 0, but for 0
/// itself.
pub proof fn law_varuint_shortest(v: nat)
    ensures
        varuint(v).len() > 0,
        varuint(v).last() < 128,
        v > 0 ==> varuint(v).last() > 0,
    decreases v,
{
    if v >= 128 {
        law_varuint_shortest(v / 128);
        assert(varuint(v).last() == varuint(v / 128).last());
    }
}

/// What a request of each kind looks like. The first byte tells the kind; the numbers follow
/// in four bytes each, and the flags behind the count of positions.
pub proof fn law_request_layout(data: Seq<u8>)
    requires
        data.len() > 0,
        data[0] < 128,
    ensures
        data[0] == 0 ==> request(data) == ShipRequest::GetStatusV0,
        data[0] == 4 ==> request(data) == ShipRequest::GetStatusV1,
        data[0] == 2 ==> request(data) == if data.len() >= 5 {
            ShipRequest::GetBlocksAckV0 { num_messages: crate::bytes::u32_at(data, 1) }
        } else {
            ShipRequest::Unknown(2)
        },
        (data[0] == 1 || data[0] == 3) && data.len() < 13 ==> request(data)
            == ShipRequest::Unknown(data[0] as u32),
        data[0] == 1 && data.len() >= 14 && data[13] < 128 ==> request(data) == (
        ShipRequest::GetBlocksV0 {
            start_block_num: crate::bytes::u32_at(data, 1),
            end_block_num: crate::bytes::u32_at(data, 5),
            max_messages_in_flight: crate::bytes::u32_at(data, 9),
            fetch_block: data.len() > 15 && data[15] != 0,
            fetch_traces: data.len() > 16 && data[16] != 0,
            fetch_deltas: data.len() > 17 && data[17] != 0,
        }),
        data[0] == 3 && data.len() >= 14 && data[13] < 128 ==> request(data) == (
        ShipRequest::GetBlocksV1 {
            start_block_num: crate::bytes::u32_at(data, 1),
            end_block_num: crate::bytes::u32_at(data, 5),
            max_messages_in_flight: crate::bytes::u32_at(data, 9),
            fetch_block: data.len() > 15 && data[15] != 0,
            fetch_traces: data.len() > 16 && data[16] != 0,
            fetch_deltas: data.len() > 17 && data[17] != 0,
        }),
        data[0] > 4 ==> request(data) == ShipRequest::Unknown(data[0] as u32),
        data[0] != 1 && data[0] != 3 || data.len() < 14 || data[13] < 128 ==> decodable(data),
{
    law_varuint_bytes(data);
    let b = body(data);
    assert(b =~= data.skip(1));
    if data.len() >= 5 {
        assert(b.subrange(0, 4) =~= data.subrange(1, 5));
    }
    if data.len() >= 13 {
        assert(b.subrange(4, 8) =~= data.subrange(5, 9));
        assert(b.subrange(8, 12) =~= data.subrange(9, 13));
    }
    if data.len() >= 14 {
        let rest = b.skip(12);
        assert(rest[0] == data[13]);
        law_varuint_bytes(rest);
        if data[13] < 128 {
            assert(flags_start(b) == 13);
            assert(flag_at(b, 14) == (data.len() > 15 && data[15] != 0));
            assert(flag_at(b, 15) == (data.len() > 16 && data[16] != 0));
            assert(flag_at(b, 16) == (data.len() > 17 && data[17] != 0));
        }
    }
}

/// Nothing at all is no request.
pub proof fn law_empty_request(data: Seq<u8>)
    requires
        data.len() == 0,
    ensures
        decodable(data),
        request(data) == ShipRequest::Unknown(u32::MAX),
{
}

/// A block id has 32 bytes, starts with the number of its block, and so tells blocks apart.
pub proof fn law_fake_id(block_num: u32, other: u32)
    ensures
        fake_id(block_num).len() == 32,
        crate::bytes::u32_at(fake_id(block_num), 0) == block_num,
        forall|i: int|
            4 <= i < 32 ==> #[trigger] fake_id(block_num)[i] == (31 * block_num + i) % 256,
        block_num != other ==> fake_id(block_num) != fake_id(other),
{
    crate::bytes::lemma_u32_bytes(block_num);
    crate::bytes::lemma_u32_bytes(other);
    assert(fake_id(block_num).subrange(0, 4) =~= crate::bytes::u32_bytes(block_num));
    assert(fake_id(other).subrange(0, 4) =~= crate::bytes::u32_bytes(other));
}

/// A payload has the size that was asked for. It starts with the number of its block, where
/// there is room for it, and holds the same byte throughout behind that.
pub proof fn law_fake_data(block_num: u32, size: nat)
    ensures
        fake_data(block_num, size).len() == size,
        size >= 4 ==> crate::bytes::u32_at(fake_data(block_num, size), 0) == block_num,
        forall|i: int|
            0 <= i < size && (size < 4 || i >= 4) ==> #[trigger] fake_data(block_num, size)[i] == (7
                * block_num) % 256,
{
    crate::bytes::lemma_u32_bytes(block_num);
    if size >= 4 {
        assert(fake_data(block_num, size).subrange(0, 4) =~= crate::bytes::u32_bytes(block_num));
    }
}

/// Where each part of a status result stands.
pub proof fn law_status_result_layout(
    head_block: u32,
    lib_block: u32,
    chain_id: Seq<u8>,
    trace_begin: u32,
    trace_end: u32,
)
    requires
        head_block < u32::MAX,
    ensures
        ({
            let m = status_result(head_block, lib_block, chain_id, trace_begin, trace_end);
            &&& m.len() == 89 + chain_id.len()
            &&& m[0] == 0
            &&& crate::bytes::u32_at(m, 1) == head_block
            &&& m.subrange(5, 37) == fake_id(head_block)
            &&& crate::bytes::u32_at(m, 37) == lib_block
            &&& m.subrange(41, 73) == fake_id(lib_block)
            &&& crate::bytes::u32_at(m, 73) == trace_begin
            &&& crate::bytes::u32_at(m, 77) == trace_end
            &&& crate::bytes::u32_at(m, 81) == 1
            &&& crate::bytes::u32_at(m, 85) == head_block + 1
            &&& m.skip(89) == chain_id
        }),
{
    let m = status_result(head_block, lib_block, chain_id, trace_begin, trace_end);
    let chain_end = (head_block + 1) as u32;
    crate::bytes::lemma_u32_bytes(head_block);
    crate::bytes::lemma_u32_bytes(lib_block);
    crate::bytes::lemma_u32_bytes(trace_begin);
    crate::bytes::lemma_u32_bytes(trace_end);
    crate::bytes::lemma_u32_bytes(1);
    crate::bytes::lemma_u32_bytes(chain_end);
    assert(varuint(0) =~= seq![0u8]);
    assert(m.subrange(1, 5) =~= crate::bytes::u32_bytes(head_block));
    assert(m.subrange(5, 37) =~= fake_id(head_block));
    assert(m.subrange(37, 41) =~= crate::bytes::u32_bytes(lib_block));
    assert(m.subrange(41, 73) =~= fake_id(lib_block));
    assert(m.subrange(73, 77) =~= crate::bytes::u32_bytes(trace_begin));
    assert(m.subrange(77, 81) =~= crate::bytes::u32_bytes(trace_end));
    assert(m.subrange(81, 85) =~= crate::bytes::u32_bytes(1));
    assert(m.subrange(85, 89) =~= crate::bytes::u32_bytes(chain_end));
    assert(m.skip(89) =~= chain_id);
}

/// Where each part of a blocks result stands.
pub proof fn law_blocks_result_layout(
    head_block: u32,
    lib_block: u32,
    this_block: u32,
    block: Option<Seq<u8>>,
    traces: Option<Seq<u8>>,
    deltas: Option<Seq<u8>>,
)
    ensures
        ({
            let m = blocks_result(head_block, lib_block, this_block, block, traces, deltas);
            let previous: u32 = if this_block == 0 {
                0
            } else {
                (this_block - 1) as u32
            };
            &&& m.len() >= 147
            &&& m[0] == 1
            &&& crate::bytes::u32_at(m, 1) == head_block
            &&& m.subrange(5, 37) == fake_id(head_block)
            &&& crate::bytes::u32_at(m, 37) == lib_block
            &&& m.subrange(41, 73) == fake_id(lib_block)
            &&& m[73] == 1
            &&& crate::bytes::u32_at(m, 74) == this_block
            &&& m.subrange(78, 110) == fake_id(this_block)
            &&& m[110] == 1
            &&& crate::bytes::u32_at(m, 111) == previous
            &&& m.subrange(115, 147) == fake_id(previous)
            &&& m.skip(147) == optional_bytes(block) + optional_bytes(traces) + optional_bytes(
                deltas,
            )
        }),
{
    let m = blocks_result(head_block, lib_block, this_block, block, traces, deltas);
    let previous = previous_block(this_block);
    crate::bytes::lemma_u32_bytes(head_block);
    crate::bytes::lemma_u32_bytes(lib_block);
    crate::bytes::lemma_u32_bytes(this_block);
    crate::bytes::lemma_u32_bytes(previous);
    assert(varuint(1) =~= seq![1u8]);
    assert(m.subrange(1, 5) =~= crate::bytes::u32_bytes(head_block));
    assert(m.subrange(5, 37) =~= fake_id(head_block));
    assert(m.subrange(37, 41) =~= crate::bytes::u32_bytes(lib_block));
    assert(m.subrange(41, 73) =~= fake_id(lib_block));
    assert(m.subrange(74, 78) =~= crate::bytes::u32_bytes(this_block));
    assert(m.subrange(78, 110) =~= fake_id(this_block));
    assert(m.subrange(111, 115) =~= crate::bytes::u32_bytes(previous));
    assert(m.subrange(115, 147) =~= fake_id(previous));
    assert(m.skip(147) =~= optional_bytes(block) + optional_bytes(traces) + optional_bytes(deltas));
}

/// An optional payload tells by its first byte whether it is there; then its length and its
/// bytes follow.
pub proof fn law_optional_bytes(data: Option<Seq<u8>>)
    ensures
        match data {
            None => optional_bytes(data) == seq![0u8],
            Some(d) => {
                let rest = optional_bytes(data).skip(1);
                &&& optional_bytes(data)[0] == 1
                &&& varuint_sum(rest) == d.len() % 0x1_0000_0000
                &&& rest.skip(varuint_len(rest) as int) == d
            },
        },
{
    if let Some(d) = data {
        let length = d.len() % 0x1_0000_0000;
        let rest = optional_bytes(data).skip(1);
        assert(rest =~= varuint(length) + d);
        law_varuint_roundtrip(length, d);
        assert(rest.skip(varuint_len(rest) as int) =~= d);
    }
}

} // verus!
