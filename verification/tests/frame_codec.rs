use ws_chat::frame::{decode, encode, pong_for, DecodeError, Frame, OpCode};

const NO_CAP: usize = usize::MAX;

fn round_trip(opcode: OpCode, payload: Vec<u8>) {
    let frame = Frame { fin: true, opcode, payload: payload.clone() };
    let mut wire: Vec<u8> = Vec::new();
    encode(&frame, &mut wire);
    let (decoded, used) = decode(&wire, NO_CAP).unwrap();
    assert_eq!(used, wire.len());
    assert_eq!(decoded.opcode, opcode);
    assert!(decoded.fin);
    assert_eq!(decoded.payload, payload);
}

#[test]
fn round_trip_every_opcode() {
    for opcode in [
        OpCode::Continuation,
        OpCode::TextFrame,
        OpCode::BinaryFrame,
        OpCode::ConnectionClose,
        OpCode::Ping,
        OpCode::Pong,
    ] {
        round_trip(opcode, b"hi".to_vec());
    }
}

#[test]
fn round_trip_boundary_lengths() {
    for len in [0usize, 1, 125, 126, 65536] {
        round_trip(OpCode::BinaryFrame, vec![0xA5u8; len]);
    }
}

#[test]
fn round_trip_fin_clear() {
    let frame = Frame { fin: false, opcode: OpCode::TextFrame, payload: b"x".to_vec() };
    let mut wire: Vec<u8> = Vec::new();
    encode(&frame, &mut wire);
    let (decoded, _) = decode(&wire, NO_CAP).unwrap();
    assert!(!decoded.fin);
}

#[test]
fn encode_small_frame_exact_bytes() {
    let frame = Frame { fin: true, opcode: OpCode::TextFrame, payload: b"hi".to_vec() };
    let mut wire: Vec<u8> = Vec::new();
    encode(&frame, &mut wire);
    assert_eq!(wire, vec![0x81, 0x02, 0x68, 0x69]);
}

#[test]
fn encode_sixteen_bit_length_exact_bytes() {
    let frame = Frame { fin: true, opcode: OpCode::BinaryFrame, payload: vec![7u8; 126] };
    let mut wire: Vec<u8> = Vec::new();
    encode(&frame, &mut wire);
    assert_eq!(&wire[..4], &[0x82, 126, 0x00, 0x7E]);
    assert_eq!(wire.len(), 4 + 126);
}

#[test]
fn encode_sixty_four_bit_length_exact_bytes() {
    let frame = Frame { fin: true, opcode: OpCode::BinaryFrame, payload: vec![7u8; 65536] };
    let mut wire: Vec<u8> = Vec::new();
    encode(&frame, &mut wire);
    assert_eq!(&wire[..10], &[0x82, 127, 0, 0, 0, 0, 0, 1, 0, 0]);
    assert_eq!(wire.len(), 10 + 65536);
}

#[test]
fn server_frames_are_unmasked() {
    let frame = Frame { fin: true, opcode: OpCode::TextFrame, payload: vec![1u8; 200] };
    let mut wire: Vec<u8> = Vec::new();
    encode(&frame, &mut wire);
    assert_eq!(wire[1] & 0x80, 0, "the mask bit must never be set on server frames");
}

#[test]
fn decode_masked_client_frame() {
    let mask = [0x11u8, 0x22, 0x33, 0x44];
    let payload = b"hi";
    let wire = vec![
        0x81,
        0x82,
        mask[0],
        mask[1],
        mask[2],
        mask[3],
        payload[0] ^ mask[0],
        payload[1] ^ mask[1],
    ];
    let (decoded, used) = decode(&wire, NO_CAP).unwrap();
    assert_eq!(used, 8);
    assert_eq!(decoded.opcode, OpCode::TextFrame);
    assert_eq!(decoded.payload, payload.to_vec());
}

#[test]
fn decode_masked_long_payload_cycles_key() {
    let mask = [1u8, 2, 3, 4];
    let payload: Vec<u8> = (0..13u8).collect();
    let mut wire = vec![0x82, 0x80 | 13];
    wire.extend_from_slice(&mask);
    for (i, b) in payload.iter().enumerate() {
        wire.push(b ^ mask[i % 4]);
    }
    let (decoded, _) = decode(&wire, NO_CAP).unwrap();
    assert_eq!(decoded.payload, payload);
}

#[test]
fn decode_incomplete_header() {
    assert!(matches!(decode(&vec![], NO_CAP), Err(DecodeError::Incomplete)));
    assert!(matches!(decode(&vec![0x81], NO_CAP), Err(DecodeError::Incomplete)));
}

#[test]
fn decode_incomplete_extended_length() {
    assert!(matches!(decode(&vec![0x82, 126, 0x00], NO_CAP), Err(DecodeError::Incomplete)));
    assert!(matches!(decode(&vec![0x82, 127, 0, 0, 0], NO_CAP), Err(DecodeError::Incomplete)));
}

#[test]
fn decode_incomplete_mask_key() {
    assert!(matches!(decode(&vec![0x81, 0x82, 0x11, 0x22], NO_CAP), Err(DecodeError::Incomplete)));
}

#[test]
fn decode_incomplete_payload() {
    assert!(matches!(decode(&vec![0x81, 0x02, 0x68], NO_CAP), Err(DecodeError::Incomplete)));
}

#[test]
fn decode_reserved_opcode_is_protocol_error() {
    assert!(matches!(decode(&vec![0x83, 0x00], NO_CAP), Err(DecodeError::Protocol)));
    assert!(matches!(decode(&vec![0x8F, 0x00], NO_CAP), Err(DecodeError::Protocol)));
}

#[test]
fn decode_oversized_length_is_protocol_error() {
    let wire = vec![0x82, 10, 0, 0, 0, 0, 0, 0, 0, 0, 0, 0];
    assert!(matches!(decode(&wire, 5), Err(DecodeError::Protocol)));
}

#[test]
fn decode_length_at_cap_is_accepted() {
    let mut wire = vec![0x82, 5];
    wire.extend_from_slice(&[9, 9, 9, 9, 9]);
    assert!(decode(&wire, 5).is_ok());
}

#[test]
fn decode_leaves_trailing_bytes() {
    let frame = Frame { fin: true, opcode: OpCode::TextFrame, payload: b"hi".to_vec() };
    let mut wire: Vec<u8> = Vec::new();
    encode(&frame, &mut wire);
    let frame_len = wire.len();
    wire.extend_from_slice(b"rest");
    let (decoded, used) = decode(&wire, NO_CAP).unwrap();
    assert_eq!(used, frame_len);
    assert_eq!(decoded.payload, b"hi".to_vec());
}

#[test]
fn pong_echoes_ping_payload() {
    let ping = Frame { fin: true, opcode: OpCode::Ping, payload: b"stamp".to_vec() };
    let pong = pong_for(&ping);
    assert_eq!(pong.opcode, OpCode::Pong);
    assert!(pong.fin);
    assert_eq!(pong.payload, b"stamp".to_vec());
}
