use cryptodropfile::protobuf_msg::{
    message_from_bytes, message_from_delimited, messages_to_bytes, parse_bytes_to_msg,
    try_parse_bytes_to_msg, Action, DecodeFault, ParseResult, SomeMessage,
};

fn msg(action: i32, filename: &str, data: &[u8]) -> SomeMessage {
    SomeMessage { action, filename: filename.to_string(), data: data.to_vec() }
}

fn encoded(m: &SomeMessage) -> Vec<u8> {
    let mut buf = Vec::new();
    m.encode_raw(&mut buf);
    buf
}

#[test]
fn encodes_fields_in_order() {
    let m = msg(4, "a", &[1, 2]);
    assert_eq!(encoded(&m), vec![0x08, 0x04, 0x12, 0x01, 0x61, 0x1a, 0x02, 1, 2]);
    assert_eq!(m.encoded_len(), 9);
}

#[test]
fn default_fields_are_not_written() {
    let m = msg(0, "", &[]);
    assert_eq!(encoded(&m), Vec::<u8>::new());
    assert_eq!(m.encoded_len(), 0);
    let m = msg(0, "", &[7]);
    assert_eq!(encoded(&m), vec![0x1a, 0x01, 7]);
}

#[test]
fn negative_action_takes_ten_bytes() {
    let m = msg(-1, "", &[]);
    let mut expected = vec![0x08];
    expected.extend_from_slice(&[0xff; 9]);
    expected.push(0x01);
    assert_eq!(encoded(&m), expected);
    assert_eq!(m.encoded_len(), 11);
}

#[test]
fn large_lengths_use_several_bytes() {
    let data = vec![5u8; 300];
    let m = msg(0, "", &data);
    let out = encoded(&m);
    assert_eq!(&out[..3], &[0x1a, 0xac, 0x02]);
    assert_eq!(out.len(), 303);
    assert_eq!(m.encoded_len(), 303);
}

#[test]
fn decode_gives_back_encoded_messages() {
    let cases = vec![
        msg(0, "", &[]),
        msg(4, "someuser", &[1, 2, 3]),
        msg(-7, "ÅÄÖ file.txt", &[0; 200]),
        msg(i32::MIN, "x", &[]),
        msg(i32::MAX, "", &[255]),
    ];
    for m in cases {
        let bytes = encoded(&m);
        assert_eq!(message_from_bytes(&bytes), Ok(m));
    }
}

#[test]
fn decode_errors() {
    // truncated varint
    assert_eq!(message_from_bytes(&vec![0x08]), Err(DecodeFault::Malformed));
    // field 1 with the length-delimited wire type
    assert_eq!(message_from_bytes(&vec![0x0a, 0x00]), Err(DecodeFault::WireTypeMismatch));
    // field 2 with the varint wire type
    assert_eq!(message_from_bytes(&vec![0x10, 0x01]), Err(DecodeFault::WireTypeMismatch));
    // field 3 with the varint wire type
    assert_eq!(message_from_bytes(&vec![0x18, 0x01]), Err(DecodeFault::WireTypeMismatch));
    // a name that is not UTF-8
    assert_eq!(message_from_bytes(&vec![0x12, 0x01, 0xff]), Err(DecodeFault::Malformed));
    // a length past the end
    assert_eq!(message_from_bytes(&vec![0x1a, 0x05, 0x01]), Err(DecodeFault::Malformed));
    // field number 0
    assert_eq!(message_from_bytes(&vec![0x00]), Err(DecodeFault::Malformed));
    // wire type 7
    assert_eq!(message_from_bytes(&vec![0x0f]), Err(DecodeFault::Malformed));
    // an end-group key without its start
    assert_eq!(message_from_bytes(&vec![0x24]), Err(DecodeFault::Malformed));
}

#[test]
fn decode_skips_unknown_fields() {
    // field 4 (varint), then action 4
    assert_eq!(message_from_bytes(&vec![0x20, 0x05, 0x08, 0x04]), Ok(msg(4, "", &[])));
    // field 5 (length-delimited) between known fields
    assert_eq!(
        message_from_bytes(&vec![0x12, 0x01, 0x62, 0x2a, 0x02, 9, 9, 0x1a, 0x01, 3]),
        Ok(msg(0, "b", &[3]))
    );
    // a group of field 6 holding a varint field
    assert_eq!(message_from_bytes(&vec![0x33, 0x08, 0x01, 0x34, 0x08, 0x02]), Ok(msg(2, "", &[])));
}

#[test]
fn decode_skips_fixed_width_fields_and_nested_groups() {
    // field 4 as 32-bit and as 64-bit, then action 1
    assert_eq!(message_from_bytes(&vec![0x25, 1, 2, 3, 4, 0x08, 0x01]), Ok(msg(1, "", &[])));
    assert_eq!(
        message_from_bytes(&vec![0x21, 1, 2, 3, 4, 5, 6, 7, 8, 0x08, 0x01]),
        Ok(msg(1, "", &[]))
    );
    // a 32-bit field cut short
    assert_eq!(message_from_bytes(&vec![0x25, 1, 2, 3]), Err(DecodeFault::Malformed));
    // an end key outside a group, and a group closed by another number
    assert_eq!(message_from_bytes(&vec![0x24]), Err(DecodeFault::Malformed));
    assert_eq!(message_from_bytes(&vec![0x33, 0x3c]), Err(DecodeFault::Malformed));
    // a group that never ends
    assert_eq!(message_from_bytes(&vec![0x33, 0x08, 0x01]), Err(DecodeFault::Malformed));
    // groups nest a hundred deep, not more
    let mut deep = vec![0x33u8; 100];
    deep.extend(vec![0x34u8; 100]);
    assert_eq!(message_from_bytes(&deep), Ok(msg(0, "", &[])));
    let mut deeper = vec![0x33u8; 101];
    deeper.extend(vec![0x34u8; 101]);
    assert_eq!(message_from_bytes(&deeper), Err(DecodeFault::Malformed));
}

#[test]
fn decode_keeps_the_last_occurrence() {
    assert_eq!(message_from_bytes(&vec![0x08, 0x01, 0x08, 0x02]), Ok(msg(2, "", &[])));
    assert_eq!(
        message_from_bytes(&vec![0x12, 0x01, 0x61, 0x12, 0x01, 0x62]),
        Ok(msg(0, "b", &[]))
    );
}

#[test]
fn decode_keeps_low_32_bits_of_action() {
    // 0xffff_ffff written in five bytes is the int32 -1
    assert_eq!(
        message_from_bytes(&vec![0x08, 0xff, 0xff, 0xff, 0xff, 0x0f]),
        Ok(msg(-1, "", &[]))
    );
    // 2^32 + 5 keeps 5
    assert_eq!(
        message_from_bytes(&vec![0x08, 0x85, 0x80, 0x80, 0x80, 0x10]),
        Ok(msg(5, "", &[]))
    );
}

#[test]
fn decode_refuses_varints_past_64_bits() {
    let mut bytes = vec![0x08];
    bytes.extend_from_slice(&[0xff; 9]);
    bytes.push(0x02);
    assert_eq!(message_from_bytes(&bytes), Err(DecodeFault::Malformed));
}

#[test]
fn encode_writes_into_a_buffer() {
    let m = msg(3, "", &[]);
    let mut buf = vec![0xaa];
    assert_eq!(m.encode(&mut buf), Ok(()));
    assert_eq!(buf, vec![0xaa, 0x08, 0x03]);
}

#[test]
fn delimited_encoding_and_decoding() {
    let m = msg(1, "f", &[1]);
    let mut buf = Vec::new();
    assert_eq!(m.encode_length_delimited(&mut buf), Ok(()));
    assert_eq!(buf, vec![0x08, 0x08, 0x01, 0x12, 0x01, 0x66, 0x1a, 0x01, 0x01]);
    buf.push(0x77);
    assert_eq!(message_from_delimited(&buf), Ok(m));
    assert_eq!(message_from_delimited(&[0x05, 0x08]), Err(DecodeFault::Malformed));
    assert_eq!(message_from_delimited(&[]), Err(DecodeFault::Malformed));
}

#[test]
fn messages_round_trip_through_frames() {
    let list = vec![msg(4, "someuser", &[1, 2]), msg(0, "", &[]), msg(-1, "x", &[9; 130])];
    let bytes = messages_to_bytes(list.clone());
    let parsed: ParseResult = parse_bytes_to_msg(&bytes);
    assert_eq!(parsed.msg, list);
    assert_eq!(parsed.len, bytes.len());
}

#[test]
fn parsing_stops_at_what_is_not_a_frame() {
    let list = vec![msg(2, "a", &[])];
    let mut bytes = messages_to_bytes(list.clone());
    let framed = bytes.len();
    bytes.push(0xff);
    let parsed = parse_bytes_to_msg(&bytes);
    assert_eq!(parsed.msg, list);
    assert_eq!(parsed.len, framed);
    let empty = parse_bytes_to_msg(&Vec::new());
    assert!(empty.msg.is_empty());
    assert_eq!(empty.len, 0);
}

#[test]
fn parsing_steps_by_the_canonical_length() {
    // the first frame writes action 1 in two bytes; its canonical encoding
    // is one byte shorter, so the walk steps into the middle of the input
    let bytes = vec![0x03, 0x08, 0x81, 0x00, 0x02, 0x08, 0x02];
    let r = try_parse_bytes_to_msg(&bytes).unwrap();
    // from position 3 the bytes [0x00, ...] read as an empty frame, then
    // [0x02, 0x08, 0x02] as action 2
    assert_eq!(r.msg, vec![msg(1, "", &[]), msg(0, "", &[]), msg(2, "", &[])]);
    assert_eq!(r.len, 7);
}

#[test]
fn parsing_that_would_step_past_the_end() {
    // action -1 written in five bytes re-encodes in ten
    let bytes = vec![0x06, 0x08, 0xff, 0xff, 0xff, 0xff, 0x0f];
    assert!(try_parse_bytes_to_msg(&bytes).is_none());
}

#[test]
fn message_descriptions() {
    assert_eq!(msg(4, "f.txt", &[1, 2, 3]).to_string(), "action: '4', filename: 'f.txt', data_len: '3'");
    assert_eq!(msg(-12, "", &[]).to_string(), "action: '-12', filename: '', data_len: '0'");
    assert_eq!(
        msg(i32::MIN, "x", &[0; 1234]).to_string(),
        "action: '-2147483648', filename: 'x', data_len: '1234'"
    );
}

#[test]
fn action_numbers() {
    let all = [
        Action::DeleteFile,
        Action::AddFile,
        Action::GetFile,
        Action::GetFileList,
        Action::Login,
        Action::Logout,
        Action::Error,
        Action::Register,
    ];
    for (i, a) in all.iter().enumerate() {
        assert_eq!(a.code(), i as i32);
        assert_eq!(Action::from_i32(i as i32), Some(*a));
    }
    assert_eq!(Action::from_i32(8), None);
    assert_eq!(Action::from_i32(-1), None);
}

#[test]
fn new_parse_result_is_empty() {
    let r = ParseResult::new();
    assert!(r.msg.is_empty());
    assert_eq!(r.len, 0);
}

#[test]
fn partial_trailing_frame_is_left_unread() {
    let list = vec![msg(4, "someuser", &[1, 2]), msg(3, "", &[])];
    let whole = messages_to_bytes(list.clone());
    let next = messages_to_bytes(vec![msg(1, "a name", &[7; 200])]);
    for k in 0..next.len() {
        let mut bytes = whole.clone();
        bytes.extend_from_slice(&next[..k]);
        let parsed = parse_bytes_to_msg(&bytes);
        assert_eq!(parsed.msg, list);
        assert_eq!(parsed.len, whole.len());
    }
}

#[test]
fn delimited_messages_nest_groups_one_level_less() {
    // unknown groups 99 deep inside a frame are skipped, 100 deep are not,
    // while a whole buffer allows 100
    let mut frame99 = vec![0xc6, 0x01];
    frame99.extend(vec![0x33u8; 99]);
    frame99.extend(vec![0x34u8; 99]);
    assert_eq!(message_from_delimited(&frame99), Ok(msg(0, "", &[])));
    let mut body100 = vec![0x33u8; 100];
    body100.extend(vec![0x34u8; 100]);
    assert_eq!(message_from_bytes(&body100), Ok(msg(0, "", &[])));
    let mut frame100 = vec![0xc8, 0x01];
    frame100.extend(body100);
    assert_eq!(message_from_delimited(&frame100), Err(DecodeFault::Malformed));
    // other unknown fields are skipped inside a frame as at the top
    assert_eq!(message_from_delimited(&[0x04, 0x25, 1, 2, 3]), Err(DecodeFault::Malformed));
    assert_eq!(message_from_delimited(&[0x07, 0x25, 1, 2, 3, 4, 0x08, 0x05]), Ok(msg(5, "", &[])));
}
