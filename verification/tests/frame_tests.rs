use ws::close::{make_close, make_ping, make_pong, read_close};
use ws::codec::{decode, encode, CodecConfig};
use ws::frame::Frame;
use ws::mask::{apply_mask, masked};
use ws::protocol::{CloseCode, OpCode};
use ws::result::Kind;

fn message(payload: Vec<u8>, opcode: OpCode, fin: bool) -> Frame {
    Frame::new(fin, opcode, payload).unwrap()
}

fn control(opcode: OpCode, payload: Vec<u8>) -> Frame {
    Frame::new(true, opcode, payload).unwrap()
}

fn server_side() -> CodecConfig {
    CodecConfig {
        max_payload: 1 << 20,
        allow_rsv1: false,
        allow_rsv2: false,
        allow_rsv3: false,
        expect_masked: true,
    }
}

fn client_side() -> CodecConfig {
    CodecConfig { expect_masked: false, ..server_side() }
}

#[test]
fn encodes_an_unmasked_text_frame() {
    let frame = message(b"Hello".to_vec(), OpCode::Text, true);
    assert_eq!(encode(&frame, [0, 0, 0, 0]), vec![0x81, 0x05, 0x48, 0x65, 0x6c, 0x6c, 0x6f]);
}

#[test]
fn encodes_a_masked_text_frame() {
    let mut frame = message(b"Hello".to_vec(), OpCode::Text, true);
    frame.set_masked(true);
    assert_eq!(
        encode(&frame, [0x37, 0xfa, 0x21, 0x3d]),
        vec![0x81, 0x85, 0x37, 0xfa, 0x21, 0x3d, 0x7f, 0x9f, 0x4d, 0x51, 0x58]
    );
}

#[test]
fn encodes_fragments() {
    let first = message(b"Hel".to_vec(), OpCode::Text, false);
    let second = message(b"lo".to_vec(), OpCode::Continuation, true);
    assert_eq!(encode(&first, [0; 4]), vec![0x01, 0x03, 0x48, 0x65, 0x6c]);
    assert_eq!(encode(&second, [0; 4]), vec![0x80, 0x02, 0x6c, 0x6f]);
}

#[test]
fn encodes_reserved_bits() {
    let mut frame = message(vec![], OpCode::Binary, true);
    frame.set_rsv1(true);
    assert_eq!(encode(&frame, [0; 4]), vec![0xC2, 0x00]);
    frame.set_rsv1(false);
    frame.set_rsv2(true);
    assert_eq!(encode(&frame, [0; 4]), vec![0xA2, 0x00]);
    frame.set_rsv2(false);
    frame.set_rsv3(true);
    assert_eq!(encode(&frame, [0; 4]), vec![0x92, 0x00]);
}

#[test]
fn length_takes_the_smallest_form() {
    let f125 = message(vec![7; 125], OpCode::Binary, true);
    let bytes = encode(&f125, [0; 4]);
    assert_eq!(&bytes[..2], &[0x82, 125]);
    assert_eq!(bytes.len(), 2 + 125);

    let f126 = message(vec![7; 126], OpCode::Binary, true);
    let bytes = encode(&f126, [0; 4]);
    assert_eq!(&bytes[..4], &[0x82, 126, 0x00, 0x7E]);
    assert_eq!(bytes.len(), 4 + 126);

    let f256 = message(vec![7; 256], OpCode::Binary, true);
    let bytes = encode(&f256, [0; 4]);
    assert_eq!(&bytes[..4], &[0x82, 0x7E, 0x01, 0x00]);

    let f65535 = message(vec![7; 65535], OpCode::Binary, true);
    let bytes = encode(&f65535, [0; 4]);
    assert_eq!(&bytes[..4], &[0x82, 0x7E, 0xFF, 0xFF]);
    assert_eq!(bytes.len(), 4 + 65535);

    let f65536 = message(vec![7; 65536], OpCode::Binary, true);
    let bytes = encode(&f65536, [0; 4]);
    assert_eq!(&bytes[..10], &[0x82, 0x7F, 0, 0, 0, 0, 0, 1, 0, 0]);
    assert_eq!(bytes.len(), 10 + 65536);
}

#[test]
fn decodes_what_was_encoded() {
    let sizes = [0usize, 1, 5, 125, 126, 127, 300, 65535, 65536, 70000];
    for size in sizes {
        let payload: Vec<u8> = (0..size).map(|i| (i * 31 % 251) as u8).collect();
        for masked_frame in [false, true] {
            let mut frame = message(payload.clone(), OpCode::Binary, size % 2 == 0);
            frame.set_masked(masked_frame);
            let key = [0xde, 0xad, 0xbe, 0xef];
            let bytes = encode(&frame, key);
            let cfg = if masked_frame { server_side() } else { client_side() };
            let (decoded, used) = decode(&bytes, &cfg).unwrap();
            assert_eq!(used, bytes.len());
            assert_eq!(decoded, Some(frame));
        }
    }
}

#[test]
fn decodes_the_first_of_many_frames() {
    let a = message(b"one".to_vec(), OpCode::Text, true);
    let b = message(b"two!".to_vec(), OpCode::Text, true);
    let mut bytes = encode(&a, [0; 4]);
    let first_len = bytes.len();
    bytes.extend(encode(&b, [0; 4]));
    let (frame, used) = decode(&bytes, &client_side()).unwrap();
    assert_eq!(frame, Some(a));
    assert_eq!(used, first_len);
    let (frame, used) = decode(&bytes[first_len..], &client_side()).unwrap();
    assert_eq!(frame, Some(b));
    assert_eq!(used, bytes.len() - first_len);
}

#[test]
fn an_incomplete_frame_takes_nothing() {
    let mut frame = message(vec![9; 300], OpCode::Binary, true);
    frame.set_masked(true);
    let bytes = encode(&frame, [1, 2, 3, 4]);
    for cut in 0..bytes.len() {
        let (decoded, used) = decode(&bytes[..cut], &server_side()).unwrap();
        assert_eq!(decoded, None);
        assert_eq!(used, 0);
    }
    let (decoded, used) = decode(&bytes, &server_side()).unwrap();
    assert_eq!(decoded, Some(frame));
    assert_eq!(used, bytes.len());
}

#[test]
fn a_decoded_payload_is_unmasked() {
    let bytes = vec![0x81, 0x85, 0x37, 0xfa, 0x21, 0x3d, 0x7f, 0x9f, 0x4d, 0x51, 0x58];
    let (frame, used) = decode(&bytes, &server_side()).unwrap();
    let frame = frame.unwrap();
    assert_eq!(used, 11);
    assert_eq!(frame.payload(), &b"Hello".to_vec());
    assert!(frame.is_masked());
    assert!(frame.is_final());
    assert_eq!(frame.opcode(), OpCode::Text);
    assert_eq!(frame.len(), 5);
}

#[test]
fn a_reserved_bit_is_a_violation_unless_claimed() {
    let bytes = vec![0xC1, 0x00];
    assert_eq!(decode(&bytes, &client_side()).unwrap_err().kind, Kind::ProtocolViolation);
    let claimed = CodecConfig { allow_rsv1: true, ..client_side() };
    let (frame, _) = decode(&bytes, &claimed).unwrap();
    assert!(frame.unwrap().has_rsv1());
    // Claiming one bit does not claim the others.
    assert_eq!(decode(&[0xA1, 0x00], &claimed).unwrap_err().kind, Kind::ProtocolViolation);
    assert_eq!(decode(&[0x91, 0x00], &claimed).unwrap_err().kind, Kind::ProtocolViolation);
    let all = CodecConfig { allow_rsv1: true, allow_rsv2: true, allow_rsv3: true, ..client_side() };
    let (frame, _) = decode(&[0xF1, 0x00], &all).unwrap();
    let frame = frame.unwrap();
    assert!(frame.has_rsv1() && frame.has_rsv2() && frame.has_rsv3());
}

#[test]
fn an_unknown_opcode_is_a_violation() {
    for op in [3u8, 4, 5, 6, 7, 11, 12, 13, 14, 15] {
        let bytes = vec![0x80 | op, 0x00];
        assert_eq!(decode(&bytes, &client_side()).unwrap_err().kind, Kind::ProtocolViolation);
    }
}

#[test]
fn a_fragmented_control_frame_is_a_violation() {
    for op in [8u8, 9, 10] {
        let bytes = vec![op, 0x00];
        assert_eq!(decode(&bytes, &client_side()).unwrap_err().kind, Kind::ProtocolViolation);
    }
}

#[test]
fn a_long_control_frame_is_a_violation() {
    for op in [8u8, 9, 10] {
        let mut bytes = vec![0x80 | op, 126, 0x00, 0x7E];
        bytes.extend(vec![0u8; 126]);
        assert_eq!(decode(&bytes, &client_side()).unwrap_err().kind, Kind::ProtocolViolation);
        // The header alone is enough to refuse it.
        assert_eq!(decode(&bytes[..2], &client_side()).unwrap_err().kind, Kind::ProtocolViolation);
        let bytes = vec![0x80 | op, 127];
        assert_eq!(decode(&bytes, &client_side()).unwrap_err().kind, Kind::ProtocolViolation);
    }
    // 125 bytes are fine.
    let mut bytes = vec![0x89, 125];
    bytes.extend(vec![1u8; 125]);
    let (frame, used) = decode(&bytes, &client_side()).unwrap();
    assert_eq!(used, 127);
    assert_eq!(frame.unwrap().opcode(), OpCode::Ping);
}

#[test]
fn a_length_in_too_wide_a_form_is_a_violation() {
    let mut bytes = vec![0x82, 126, 0x00, 0x7D];
    bytes.extend(vec![0u8; 125]);
    assert_eq!(decode(&bytes, &client_side()).unwrap_err().kind, Kind::ProtocolViolation);
    let mut bytes = vec![0x82, 127, 0, 0, 0, 0, 0, 0, 0xFF, 0xFF];
    bytes.extend(vec![0u8; 65535]);
    assert_eq!(decode(&bytes, &client_side()).unwrap_err().kind, Kind::ProtocolViolation);
}

#[test]
fn masking_must_fit_the_role() {
    let masked_bytes = vec![0x81, 0x85, 0x37, 0xfa, 0x21, 0x3d, 0x7f, 0x9f, 0x4d, 0x51, 0x58];
    assert_eq!(decode(&masked_bytes, &client_side()).unwrap_err().kind, Kind::ProtocolViolation);
    let plain = vec![0x81, 0x05, 0x48, 0x65, 0x6c, 0x6c, 0x6f];
    assert_eq!(decode(&plain, &server_side()).unwrap_err().kind, Kind::ProtocolViolation);
}

#[test]
fn a_payload_beyond_the_bound_is_refused_before_it_arrives() {
    let cfg = CodecConfig { max_payload: 1000, ..client_side() };
    // Only the header is there: 1001 bytes are declared.
    let bytes = vec![0x82, 126, 0x03, 0xE9];
    assert_eq!(decode(&bytes, &cfg).unwrap_err().kind, Kind::CapacityExceeded);
    // 1000 bytes are within the bound, and simply not there yet.
    let bytes = vec![0x82, 126, 0x03, 0xE8];
    assert_eq!(decode(&bytes, &cfg).unwrap(), (None, 0));
    // A hostile length of eight bytes.
    let bytes = vec![0x82, 127, 0x7F, 0xFF, 0xFF, 0xFF, 0xFF, 0xFF, 0xFF, 0xFF];
    assert_eq!(decode(&bytes, &cfg).unwrap_err().kind, Kind::CapacityExceeded);
}

#[test]
fn masking_twice_gives_the_payload_back() {
    let key = [0x12, 0x34, 0x56, 0x78];
    let data: Vec<u8> = (0..=255u8).collect();
    let once = masked(&data, key);
    assert_ne!(once, data);
    assert_eq!(masked(&once, key), data);
    let mut in_place = data.clone();
    apply_mask(&mut in_place, key);
    assert_eq!(in_place, once);
    apply_mask(&mut in_place, key);
    assert_eq!(in_place, data);
}

#[test]
fn masking_cycles_through_the_key() {
    assert_eq!(masked(&[0, 0, 0, 0, 0, 0], [1, 2, 3, 4]), vec![1, 2, 3, 4, 1, 2]);
    assert_eq!(masked(&[0xFF, 0x0F], [0x0F, 0xFF, 0, 0]), vec![0xF0, 0xF0]);
    assert_eq!(masked(&[], [1, 2, 3, 4]), Vec::<u8>::new());
}

#[test]
fn new_refuses_control_frames_that_break_the_rules() {
    assert_eq!(
        Frame::new(false, OpCode::Ping, vec![]).unwrap_err().kind,
        Kind::ProtocolViolation
    );
    assert_eq!(
        Frame::new(true, OpCode::Close, vec![0; 126]).unwrap_err().kind,
        Kind::ProtocolViolation
    );
    assert_eq!(make_ping(vec![0; 126]).unwrap_err().kind, Kind::ProtocolViolation);
    assert_eq!(make_pong(vec![0; 126]).unwrap_err().kind, Kind::ProtocolViolation);
    let ping = make_ping(vec![0; 125]).unwrap();
    assert_eq!(ping.opcode(), OpCode::Ping);
    assert!(ping.is_control());
    let pong = make_pong(vec![1, 2]).unwrap();
    assert_eq!(encode(&pong, [0; 4]), vec![0x8A, 2, 1, 2]);
    let data = Frame::new(false, OpCode::Text, vec![0; 1000]).unwrap();
    assert!(!data.is_final());
    assert!(!data.is_control());
    assert_eq!(data.clone().into_data(), vec![0; 1000]);
}

#[test]
fn close_frame_carries_code_and_reason() {
    let frame = make_close(CloseCode::Normal, b"bye");
    assert_eq!(encode(&frame, [0; 4]), vec![0x88, 5, 0x03, 0xE8, b'b', b'y', b'e']);
    assert_eq!(read_close(frame.payload()).unwrap(), (CloseCode::Normal, "bye".to_owned()));
    let frame = make_close(CloseCode::Other(4321), b"");
    assert_eq!(frame.payload(), &vec![0x10, 0xE1]);
    assert_eq!(read_close(frame.payload()).unwrap(), (CloseCode::Other(4321), String::new()));
}

#[test]
fn close_frame_leaves_out_what_may_not_travel() {
    // A code that is for local use only gives an empty payload.
    assert_eq!(make_close(CloseCode::Abnormal, b"lost").payload(), &Vec::<u8>::new());
    assert_eq!(make_close(CloseCode::TlsHandshakeFailure, b"").payload(), &Vec::<u8>::new());
    assert_eq!(make_close(CloseCode::Other(1005), b"").payload(), &Vec::<u8>::new());
    assert_eq!(make_close(CloseCode::Other(999), b"").payload(), &Vec::<u8>::new());
    assert_eq!(make_close(CloseCode::Other(5000), b"").payload(), &Vec::<u8>::new());
    // A reason that does not fit is left out; one of 123 bytes fits.
    assert_eq!(make_close(CloseCode::GoingAway, &[b'x'; 124]).payload(), &vec![0x03, 0xE9]);
    assert_eq!(make_close(CloseCode::GoingAway, &[b'x'; 123]).payload().len(), 125);
}

#[test]
fn reads_close_payloads() {
    assert_eq!(read_close(&[]).unwrap(), (CloseCode::Other(1005), String::new()));
    assert_eq!(read_close(&[0x03]).unwrap_err().kind, Kind::ProtocolViolation);
    assert_eq!(read_close(&[0x03, 0xE8]).unwrap(), (CloseCode::Normal, String::new()));
    assert_eq!(read_close(&[0x03, 0xEA, b'x']).unwrap(), (CloseCode::ProtocolError, "x".to_owned()));
    // 1005 and 1006 may not travel; neither may 999 or 2999.
    assert_eq!(read_close(&[0x03, 0xED]).unwrap_err().kind, Kind::ProtocolViolation);
    assert_eq!(read_close(&[0x03, 0xEE]).unwrap_err().kind, Kind::ProtocolViolation);
    assert_eq!(read_close(&[0x03, 0xE7]).unwrap_err().kind, Kind::ProtocolViolation);
    assert_eq!(read_close(&[0x0B, 0xB7]).unwrap_err().kind, Kind::ProtocolViolation);
    assert_eq!(read_close(&[0x0B, 0xB8]).unwrap(), (CloseCode::Other(3000), String::new()));
    // A reason that is not valid text.
    assert_eq!(read_close(&[0x03, 0xE8, 0xFF]).unwrap_err().kind, Kind::ProtocolViolation);
    assert_eq!(
        read_close(&[0x03, 0xE8, 0xC3, 0xA9]).unwrap(),
        (CloseCode::Normal, "\u{e9}".to_owned())
    );
}

#[test]
fn data_frames_by_kind() {
    assert_eq!(Frame::text(b"a".to_vec(), true), message(b"a".to_vec(), OpCode::Text, true));
    assert_eq!(Frame::text(b"a".to_vec(), false), message(b"a".to_vec(), OpCode::Text, false));
    assert_eq!(Frame::binary(vec![1], true), message(vec![1], OpCode::Binary, true));
    assert_eq!(
        Frame::continuation(vec![2], false),
        message(vec![2], OpCode::Continuation, false)
    );
    assert_eq!(encode(&Frame::continuation(vec![], true), [0; 4]), vec![0x80, 0x00]);
}
