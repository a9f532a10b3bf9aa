//! Zero copy deserialization.

use fleet_router::functions::buffer_to_hex;
use fleet_router::protocol::{
    decode_request, encode_status_result_v0_with_range, fake_block_id, ShipRequest,
};
use fleet_router::string_map::StringMap;
use fleet_router::zcd::{
    deserialize_result, deserialize_status_result, deserialize_with, fits, ZCDField, ZCDType,
    ZCDValues, GET_BLOCKS_ACK_REQUEST_V0_FIELDS, GET_BLOCKS_REQUEST_V0_FIELDS, RESULT_V0_FIELDS,
    STATUS_RESULT_V0_FIELDS, ZCD,
};

fn u32_of(zcd: &ZCD, name: &str) -> u32 {
    match zcd.get(name) {
        Some(v) => v.into_u32(),
        None => panic!("no field {}", name),
    }
}

#[test]
fn status_result_reads_back() {
    let chain_id = [0xABu8; 32];
    let message = encode_status_result_v0_with_range(5000, 4990, &chain_id, 100, 4000);
    let result = deserialize_result(&message);
    assert!(matches!(result.get("variant"), Some(ZCDValues::U8(0))));
    let data = match result.get("data") {
        Some(ZCDValues::Bytes(bytes)) => bytes,
        other => panic!("expected bytes, got {:?}", other),
    };
    let status = deserialize_status_result(&data);
    assert_eq!(u32_of(&status, "head_block_num"), 5000);
    assert_eq!(u32_of(&status, "last_irreversible_block_num"), 4990);
    assert_eq!(u32_of(&status, "trace_begin_block"), 100);
    assert_eq!(u32_of(&status, "trace_end_block"), 4000);
    assert_eq!(u32_of(&status, "chain_state_begin_block"), 1);
    assert_eq!(u32_of(&status, "chain_state_end_block"), 5001);
    assert_eq!(
        status.get("head_block_id").unwrap().into_checksum256(),
        fake_block_id(5000)
    );
    assert_eq!(
        status.get("last_irreversible_block_id").unwrap().into_checksum256(),
        fake_block_id(4990)
    );
    assert_eq!(status.get("chain_id").unwrap().into_checksum256(), chain_id);
    assert!(status.get("no_such_field").is_none());
    assert_eq!(*status.get_type("chain_id"), ZCDType::Checksum256);
    assert_eq!(*status.get_type("trace_end_block"), ZCDType::U32);
    assert_eq!(status.buffer, &data[..]);
    assert_eq!(status.hash_map.len(), 9);
}

#[test]
fn a_status_without_its_chain_id() {
    let message = encode_status_result_v0_with_range(5000, 4990, &[0xAB; 32], 100, 4000);
    for len in [88, 119] {
        let data = &message[1..1 + len];
        let status = deserialize_status_result(data);
        assert_eq!(u32_of(&status, "head_block_num"), 5000);
        assert_eq!(u32_of(&status, "last_irreversible_block_num"), 4990);
        assert_eq!(u32_of(&status, "trace_begin_block"), 100);
        assert_eq!(u32_of(&status, "chain_state_end_block"), 5001);
        assert_eq!(status.hash_map.len(), 8);
        assert!(status.get("chain_id").is_none());
    }
}

#[test]
fn arrays_take_what_they_count() {
    let mut body = Vec::new();
    body.extend_from_slice(&10u32.to_le_bytes());
    body.extend_from_slice(&20u32.to_le_bytes());
    body.extend_from_slice(&5u32.to_le_bytes());
    body.push(2);
    body.extend_from_slice(&[7u8; 72]);
    body.extend_from_slice(&[0, 1, 0, 1]);
    assert!(fits(&GET_BLOCKS_REQUEST_V0_FIELDS, &body));
    let request = deserialize_with(&GET_BLOCKS_REQUEST_V0_FIELDS, &body);
    assert_eq!(u32_of(&request, "start_block_num"), 10);
    assert_eq!(u32_of(&request, "end_block_num"), 20);
    assert_eq!(u32_of(&request, "max_messages_in_flight"), 5);
    match request.get("have_positions") {
        Some(ZCDValues::Array(bytes)) => {
            assert_eq!(bytes.len(), 73);
            assert_eq!(bytes[0], 2);
        }
        other => panic!("expected an array, got {:?}", other),
    }
    assert!(matches!(request.get("irreversible_only"), Some(ZCDValues::Bool(false))));
    assert!(matches!(request.get("fetch_block"), Some(ZCDValues::Bool(true))));
    assert!(matches!(request.get("fetch_traces"), Some(ZCDValues::Bool(false))));
    assert!(matches!(request.get("fetch_deltas"), Some(ZCDValues::Bool(true))));
    // One byte less does not fit.
    body.pop();
    assert!(!fits(&GET_BLOCKS_REQUEST_V0_FIELDS, &body));
}

#[test]
fn both_decoders_read_the_same_request() {
    let mut data = vec![1u8];
    data.extend_from_slice(&10u32.to_le_bytes());
    data.extend_from_slice(&20u32.to_le_bytes());
    data.extend_from_slice(&5u32.to_le_bytes());
    data.extend_from_slice(&[0, 1, 1, 0, 1]);
    let request = deserialize_with(&GET_BLOCKS_REQUEST_V0_FIELDS, &data[1..]);
    let flag = |name: &str| matches!(request.get(name), Some(ZCDValues::Bool(true)));
    assert_eq!(
        decode_request(&data),
        ShipRequest::GetBlocksV0 {
            start_block_num: u32_of(&request, "start_block_num"),
            end_block_num: u32_of(&request, "end_block_num"),
            max_messages_in_flight: u32_of(&request, "max_messages_in_flight"),
            fetch_block: flag("fetch_block"),
            fetch_traces: flag("fetch_traces"),
            fetch_deltas: flag("fetch_deltas"),
        }
    );
    assert!(flag("fetch_block") && !flag("fetch_traces") && flag("fetch_deltas"));
}

#[test]
fn buffers_that_do_not_fit() {
    assert!(!fits(&RESULT_V0_FIELDS, &[]));
    assert!(fits(&RESULT_V0_FIELDS, &[1]));
    assert!(!fits(&STATUS_RESULT_V0_FIELDS, &[0u8; 119]));
    assert!(fits(&STATUS_RESULT_V0_FIELDS, &[0u8; 120]));
    assert!(fits(&STATUS_RESULT_V0_FIELDS, &[0u8; 121]));
    // The count of an array is missing.
    assert!(!fits(&GET_BLOCKS_REQUEST_V0_FIELDS, &[0u8; 12]));
    assert!(!fits(&GET_BLOCKS_ACK_REQUEST_V0_FIELDS, &[0u8; 3]));
}

#[test]
fn an_unbounded_field_takes_the_rest() {
    let result = deserialize_result(&[2, 8, 9]);
    assert!(matches!(result.get("variant"), Some(ZCDValues::U8(2))));
    match result.get("data") {
        Some(ZCDValues::Bytes(bytes)) => assert_eq!(bytes, vec![8, 9]),
        other => panic!("expected bytes, got {:?}", other),
    }
    let empty = deserialize_result(&[2]);
    match empty.get("data") {
        Some(ZCDValues::Bytes(bytes)) => assert_eq!(bytes, Vec::<u8>::new()),
        other => panic!("expected bytes, got {:?}", other),
    }
}

#[test]
fn an_unbounded_field_in_the_middle_is_left_out() {
    let fields: [(&ZCDType, &str, usize); 3] = [
        (&ZCDType::U8, "first", 1),
        (&ZCDType::Bytes, "middle", 0),
        (&ZCDType::U8, "last", 1),
    ];
    let message = deserialize_with(&fields, &[5, 6]);
    assert_eq!(message.get("first").unwrap().into_u8(), 5);
    assert!(message.get("middle").is_none());
    assert_eq!(message.get("last").unwrap().into_u8(), 6);
}

#[test]
fn a_repeated_name_keeps_the_last_field() {
    let fields: [(&ZCDType, &str, usize); 2] = [(&ZCDType::U8, "x", 1), (&ZCDType::U8, "x", 1)];
    let message = deserialize_with(&fields, &[5, 6]);
    assert_eq!(message.get("x").unwrap().into_u8(), 6);
}

#[test]
fn wide_numbers_and_text() {
    let fields: [(&ZCDType, &str, usize); 3] = [
        (&ZCDType::U64, "wide", 8),
        (&ZCDType::U128, "wider", 16),
        (&ZCDType::String, "text", 0),
    ];
    let mut buffer = Vec::new();
    buffer.extend_from_slice(&(u64::MAX - 5).to_le_bytes());
    buffer.extend_from_slice(&(u128::MAX - 7).to_le_bytes());
    buffer.extend_from_slice("h\u{e9}llo".as_bytes());
    let message = deserialize_with(&fields, &buffer);
    assert_eq!(message.get("wide").unwrap().into_u64(), u64::MAX - 5);
    assert_eq!(message.get("wider").unwrap().into_u128(), u128::MAX - 7);
    assert_eq!(message.get("text").unwrap().into_text(), "h\u{e9}llo");
}

#[test]
fn bytes_that_are_no_text() {
    let field = ZCDField { slice: &[104, 255, 105], f_type: &ZCDType::String, size: 3 };
    assert_eq!(field.as_string(), "h\u{fffd}i");
}

#[test]
fn field_accessors() {
    let bytes = [1u8, 2, 3, 4, 5, 6, 7, 8, 0, 0, 0, 0, 0, 0, 0, 0];
    let sum = [0xA5u8; 32];
    let field = |slice| ZCDField { slice, f_type: &ZCDType::Bytes, size: 0 };
    assert!(field(&bytes[..1]).as_bool());
    assert!(!field(&bytes[8..9]).as_bool());
    assert_eq!(field(&bytes[1..2]).as_u8(), 2);
    assert_eq!(field(&bytes[..4]).as_u32(), 0x04030201);
    assert_eq!(field(&bytes[..8]).as_u64(), 0x0807060504030201);
    assert_eq!(field(&bytes).as_u128(), 0x0807060504030201);
    let checksum = ZCDField { slice: &sum, f_type: &ZCDType::Checksum256, size: 32 };
    assert_eq!(checksum.as_checksum256(), sum);
    assert_eq!(checksum.as_checksum256_hex(), "a5".repeat(32));
}

#[test]
fn values_as_text() {
    assert_eq!(ZCDValues::Bool(true).to_string(), "true");
    assert_eq!(ZCDValues::Bool(false).to_string(), "false");
    assert_eq!(ZCDValues::U8(200).to_string(), "200");
    assert_eq!(ZCDValues::U32(0).to_string(), "0");
    assert_eq!(ZCDValues::U64(u64::MAX).to_string(), "18446744073709551615");
    assert_eq!(
        ZCDValues::U128(u128::MAX).to_string(),
        "340282366920938463463374607431768211455"
    );
    assert_eq!(ZCDValues::String("abc".to_string()).to_string(), "abc");
    assert_eq!(ZCDValues::Checksum256([16; 32]).to_string(), "10".repeat(32));
    assert_eq!(ZCDValues::Bytes(vec![0, 255, 10]).to_string(), "00ff0a");
    assert_eq!(ZCDValues::Array(vec![1]).to_string(), "01");
}

#[test]
fn a_byte_is_a_value() {
    let value: ZCDValues = 7u8.into();
    assert_eq!(value.into_u8(), 7);
}

#[test]
fn a_message_from_its_parts() {
    let buffer = [3u8, 4];
    let mut map: StringMap<ZCDField> = StringMap::new();
    map.insert(
        "x".to_string(),
        ZCDField { slice: &buffer[1..], f_type: &ZCDType::U8, size: 1 },
    );
    let message = ZCD::from(&buffer, map);
    assert_eq!(message.buffer, &buffer[..]);
    assert_eq!(message.get("x").unwrap().into_u8(), 4);
}

#[test]
fn hexadecimal_text() {
    assert_eq!(buffer_to_hex(vec![]), "");
    assert_eq!(buffer_to_hex(vec![0, 1, 9, 10, 15, 16, 159, 250, 255]), "0001090a0f109ffaff");
}
