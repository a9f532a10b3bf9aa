//! The SHiP wire protocol.

use fleet_router::protocol::{
    decode_request, decode_varuint32, encode_block_position, encode_blocks_result_v0_with_data,
    encode_status_result_v0, encode_status_result_v0_with_range, encode_varuint32, fake_block_id,
    generate_fake_data, is_decodable, ShipRequest,
};

fn blocks_request(variant: u8, start: u32, end: u32, max: u32, flags: [u8; 4]) -> Vec<u8> {
    let mut data = vec![variant];
    data.extend_from_slice(&start.to_le_bytes());
    data.extend_from_slice(&end.to_le_bytes());
    data.extend_from_slice(&max.to_le_bytes());
    data.push(0);
    data.extend_from_slice(&flags);
    data
}

#[test]
fn test_varuint32_roundtrip() {
    for val in [0, 1, 127, 128, 255, 16383, 16384, u32::MAX] {
        let encoded = encode_varuint32(val);
        let (decoded, consumed) = decode_varuint32(&encoded);
        assert_eq!(val, decoded);
        assert_eq!(consumed, encoded.len());
    }
}

#[test]
fn test_status_request_v0_decode() {
    // variant index 0 = get_status_request_v0 (empty body)
    let data = encode_varuint32(0);
    match decode_request(&data) {
        ShipRequest::GetStatusV0 => {}
        other => panic!("Expected GetStatusV0, got {:?}", other),
    }
}

#[test]
fn test_blocks_request_v0_decode() {
    let mut data = encode_varuint32(1);
    data.extend_from_slice(&100u32.to_le_bytes()); // start_block_num
    data.extend_from_slice(&200u32.to_le_bytes()); // end_block_num
    data.extend_from_slice(&10u32.to_le_bytes()); // max_messages_in_flight
    // have_positions: empty array (varuint32 0)
    data.extend_from_slice(&encode_varuint32(0));
    // bools
    data.push(0); // irreversible_only
    data.push(0); // fetch_block
    data.push(0); // fetch_traces
    data.push(0); // fetch_deltas

    match decode_request(&data) {
        ShipRequest::GetBlocksV0 {
            start_block_num,
            end_block_num,
            max_messages_in_flight,
            ..
        } => {
            assert_eq!(start_block_num, 100);
            assert_eq!(end_block_num, 200);
            assert_eq!(max_messages_in_flight, 10);
        }
        other => panic!("Expected GetBlocksV0, got {:?}", other),
    }
}

#[test]
fn test_ack_request_decode() {
    let mut data = encode_varuint32(2);
    data.extend_from_slice(&5u32.to_le_bytes());
    match decode_request(&data) {
        ShipRequest::GetBlocksAckV0 { num_messages } => {
            assert_eq!(num_messages, 5);
        }
        other => panic!("Expected GetBlocksAckV0, got {:?}", other),
    }
}

#[test]
fn test_status_result_v0_encoding() {
    let chain_id = [0xABu8; 32];
    let result = encode_status_result_v0(1000, 990, &chain_id);
    // Should start with varuint32(0)
    assert_eq!(result[0], 0);
    // head block_num should be 1000 LE at offset 1
    assert_eq!(u32::from_le_bytes(result[1..5].try_into().unwrap()), 1000);
}

#[test]
fn test_blocks_result_v0_encoding() {
    let result = encode_blocks_result_v0_with_data(1000, 990, 500, None, None, None);
    // Should start with varuint32(1)
    assert_eq!(result[0], 1);
}

#[test]
fn varuint32_bytes() {
    assert_eq!(encode_varuint32(0), vec![0]);
    assert_eq!(encode_varuint32(127), vec![0x7f]);
    assert_eq!(encode_varuint32(128), vec![0x80, 0x01]);
    assert_eq!(encode_varuint32(300), vec![0xac, 0x02]);
    assert_eq!(encode_varuint32(u32::MAX), vec![0xff, 0xff, 0xff, 0xff, 0x0f]);
}

#[test]
fn varuint32_stops_at_its_end() {
    assert_eq!(decode_varuint32(&[0xac, 0x02, 0xff]), (300, 2));
    // The bytes end before the number does: all of them are consumed.
    assert_eq!(decode_varuint32(&[0x80, 0x80]), (0, 2));
    assert_eq!(decode_varuint32(&[]), (0, 0));
    // Only the 32 low bits count.
    assert_eq!(decode_varuint32(&[0xff, 0xff, 0xff, 0xff, 0x7f]), (u32::MAX, 5));
}

#[test]
fn fake_block_ids() {
    let id = fake_block_id(500);
    assert_eq!(id[..4], 500u32.to_le_bytes());
    assert_eq!(id[4], ((500u32 * 31 + 4) % 256) as u8);
    assert_eq!(id[31], ((500u32 * 31 + 31) % 256) as u8);
    assert_eq!(fake_block_id(u32::MAX)[4], ((u32::MAX as u64 * 31 + 4) % 256) as u8);
}

#[test]
fn block_positions() {
    let id = [7u8; 32];
    let position = encode_block_position(258, &id);
    assert_eq!(position.len(), 36);
    assert_eq!(position[..4], [2, 1, 0, 0]);
    assert_eq!(position[4..], id);
}

#[test]
fn status_result_layout() {
    let chain_id = [0xABu8; 32];
    let result = encode_status_result_v0_with_range(5000, 4990, &chain_id, 100, 4000);
    assert_eq!(result.len(), 121);
    let at = |i: usize| u32::from_le_bytes(result[i..i + 4].try_into().unwrap());
    assert_eq!(at(1), 5000);
    assert_eq!(result[5..37], fake_block_id(5000));
    assert_eq!(at(37), 4990);
    assert_eq!(result[41..73], fake_block_id(4990));
    assert_eq!(at(73), 100);
    assert_eq!(at(77), 4000);
    assert_eq!(at(81), 1);
    assert_eq!(at(85), 5001);
    assert_eq!(result[89..], chain_id);
}

#[test]
fn status_result_default_range() {
    let chain_id = [1u8; 32];
    assert_eq!(
        encode_status_result_v0(1000, 990, &chain_id),
        encode_status_result_v0_with_range(1000, 990, &chain_id, 1, 1001)
    );
}

#[test]
fn blocks_result_layout() {
    let block = [9u8; 3];
    let result = encode_blocks_result_v0_with_data(1000, 990, 500, Some(&block), None, Some(&[]));
    assert_eq!(result[73], 1);
    assert_eq!(u32::from_le_bytes(result[74..78].try_into().unwrap()), 500);
    assert_eq!(result[110], 1);
    assert_eq!(u32::from_le_bytes(result[111..115].try_into().unwrap()), 499);
    assert_eq!(result[147..], [1, 3, 9, 9, 9, 0, 1, 0]);
}

#[test]
fn the_first_block_precedes_itself() {
    let result = encode_blocks_result_v0_with_data(10, 5, 0, None, None, None);
    assert_eq!(u32::from_le_bytes(result[111..115].try_into().unwrap()), 0);
}

#[test]
fn fake_data_is_stamped() {
    assert_eq!(generate_fake_data(300, 6), vec![44, 1, 0, 0, 52, 52]);
    // No room for the stamp.
    assert_eq!(generate_fake_data(300, 3), vec![52, 52, 52]);
    assert_eq!(generate_fake_data(300, 0), Vec::<u8>::new());
}

#[test]
fn request_flags() {
    let request = decode_request(&blocks_request(1, 1, 2, 3, [0, 1, 0, 1]));
    assert_eq!(
        request,
        ShipRequest::GetBlocksV0 {
            start_block_num: 1,
            end_block_num: 2,
            max_messages_in_flight: 3,
            fetch_block: true,
            fetch_traces: false,
            fetch_deltas: true,
        }
    );
    let request = decode_request(&blocks_request(3, 7, 8, 9, [1, 0, 1, 0]));
    assert_eq!(
        request,
        ShipRequest::GetBlocksV1 {
            start_block_num: 7,
            end_block_num: 8,
            max_messages_in_flight: 9,
            fetch_block: false,
            fetch_traces: true,
            fetch_deltas: false,
        }
    );
}

#[test]
fn requests_cut_short() {
    assert_eq!(decode_request(&[]), ShipRequest::Unknown(u32::MAX));
    assert_eq!(decode_request(&[1, 0, 0]), ShipRequest::Unknown(1));
    assert_eq!(decode_request(&[3, 0, 0]), ShipRequest::Unknown(3));
    assert_eq!(decode_request(&[2, 0, 0]), ShipRequest::Unknown(2));
    assert_eq!(decode_request(&[9]), ShipRequest::Unknown(9));
    assert_eq!(decode_request(&[4]), ShipRequest::GetStatusV1);
    // The flags may be missing.
    let mut data = blocks_request(1, 1, 2, 3, [1, 1, 1, 1]);
    data.truncate(13);
    assert!(matches!(
        decode_request(&data),
        ShipRequest::GetBlocksV0 { fetch_block: false, fetch_traces: false, fetch_deltas: false, .. }
    ));
}

#[test]
fn overlong_varuints_are_not_decodable() {
    assert!(is_decodable(&[]));
    assert!(is_decodable(&[0]));
    assert!(is_decodable(&[0xff, 0xff, 0xff, 0xff]));
    assert!(is_decodable(&[0xff, 0xff, 0xff, 0xff, 0xff]));
    assert!(!is_decodable(&[0xff, 0xff, 0xff, 0xff, 0xff, 0x01]));
    // The count of positions in a blocks request.
    let mut data = blocks_request(1, 1, 2, 3, [0, 0, 0, 0]);
    data.truncate(13);
    data.extend_from_slice(&[0xff, 0xff, 0xff, 0xff, 0xff, 0x01]);
    assert!(!is_decodable(&data));
}
