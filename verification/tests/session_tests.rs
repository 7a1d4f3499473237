use ws::assembler::MessageAssembler;
use ws::close::{make_close, make_ping};
use ws::codec::{decode, encode, CodecConfig};
use ws::frame::Frame;
use ws::message::Message;
use ws::protocol::{CloseCode, OpCode};
use ws::result::Kind;
use ws::handshake::{Request, Response};
use ws::session::{Action, Role, Session, Settings, State};

fn message(payload: Vec<u8>, opcode: OpCode, fin: bool) -> Frame {
    Frame::new(fin, opcode, payload).unwrap()
}

fn control(opcode: OpCode, payload: Vec<u8>) -> Frame {
    Frame::new(true, opcode, payload).unwrap()
}

fn open_session(role: Role) -> Session {
    let mut s = Session::new(role, &Settings::new());
    s.opened();
    assert_eq!(s.state(), State::Open);
    s
}

fn next(s: &Session) -> Option<Vec<u8>> {
    s.next_output().map(|rest| rest.to_vec())
}

fn written_whole(s: &mut Session) {
    let n = s.next_output().map(|rest| rest.len()).unwrap_or(0);
    s.written(n);
}

fn text(data: &[u8], fin: bool) -> Frame {
    message(data.to_vec(), OpCode::Text, fin)
}

fn cont(data: &[u8], fin: bool) -> Frame {
    message(data.to_vec(), OpCode::Continuation, fin)
}

#[test]
fn settings_have_their_defaults() {
    let s = Settings::new();
    assert_eq!(s.max_payload, 16 * 1024 * 1024);
    assert_eq!(s.max_message, 16 * 1024 * 1024);
    assert_eq!(s.max_handshake, 8192);
    assert_eq!(s.close_timeout, 10_000);
    assert!(!s.allow_rsv1 && !s.allow_rsv2 && !s.allow_rsv3);
    assert_eq!(s.ignored_os_error, Some(104));
    assert!(s.codec(Role::Server).expect_masked);
    assert!(!s.codec(Role::Client).expect_masked);
    assert_eq!(s.codec(Role::Client).max_payload, s.max_payload);
}

#[test]
fn assembler_puts_two_fragments_together() {
    let mut a = MessageAssembler::new(100);
    assert!(!a.in_progress());
    assert_eq!(a.push(text(b"h", false)).unwrap(), None);
    assert!(a.in_progress());
    assert_eq!(a.push(cont(b"i", true)).unwrap(), Some(Message::Text("hi".to_owned())));
    assert!(!a.in_progress());
}

#[test]
fn fragments_give_what_one_frame_gives() {
    let payload: Vec<u8> = "gr\u{fc}\u{df}e aus \u{6771}\u{4eac} \u{1f600}".as_bytes().to_vec();
    let mut whole = MessageAssembler::new(1000);
    let expected = whole.push(text(&payload, true)).unwrap();
    assert_eq!(expected, Some(Message::Text("gr\u{fc}\u{df}e aus \u{6771}\u{4eac} \u{1f600}".to_owned())));
    // Every cut into two, also inside a character, and every cut into three.
    for i in 0..=payload.len() {
        let mut a = MessageAssembler::new(1000);
        assert_eq!(a.push(text(&payload[..i], false)).unwrap(), None);
        assert_eq!(a.push(cont(&payload[i..], true)).unwrap(), expected);
        for j in i..=payload.len() {
            let mut a = MessageAssembler::new(1000);
            assert_eq!(a.push(text(&payload[..i], false)).unwrap(), None);
            assert_eq!(a.push(cont(&payload[i..j], false)).unwrap(), None);
            assert_eq!(a.push(cont(&payload[j..], true)).unwrap(), expected);
            assert!(!a.in_progress());
        }
    }
}

#[test]
fn binary_fragments_keep_their_kind() {
    let mut a = MessageAssembler::new(10);
    assert_eq!(a.push(message(vec![0xFF], OpCode::Binary, false)).unwrap(), None);
    assert_eq!(a.push(cont(&[], false)).unwrap(), None);
    assert_eq!(a.push(cont(&[0xFE], true)).unwrap(), Some(Message::Binary(vec![0xFF, 0xFE])));
}

#[test]
fn control_frames_pass_between_fragments() {
    let mut a = MessageAssembler::new(10);
    assert_eq!(a.push(text(b"a", false)).unwrap(), None);
    assert_eq!(a.push(make_ping(vec![1]).unwrap()).unwrap(), None);
    assert!(a.in_progress());
    assert_eq!(a.push(cont(b"b", true)).unwrap(), Some(Message::Text("ab".to_owned())));
}

#[test]
fn assembler_refuses_what_breaks_the_order() {
    let mut a = MessageAssembler::new(10);
    assert_eq!(a.push(cont(b"x", true)).unwrap_err().kind, Kind::ProtocolViolation);
    assert!(!a.in_progress());
    assert_eq!(a.push(text(b"a", false)).unwrap(), None);
    assert_eq!(a.push(text(b"b", true)).unwrap_err().kind, Kind::ProtocolViolation);
    assert!(!a.in_progress());
    assert_eq!(a.push(text(b"c", true)).unwrap(), Some(Message::Text("c".to_owned())));
}

#[test]
fn assembler_refuses_text_that_is_no_text() {
    let mut a = MessageAssembler::new(10);
    assert_eq!(a.push(text(&[0xC3], true)).unwrap_err().kind, Kind::ProtocolViolation);
    assert_eq!(a.push(text(&[0xC3], false)).unwrap(), None);
    assert_eq!(a.push(cont(&[0x28], true)).unwrap_err().kind, Kind::ProtocolViolation);
    assert!(!a.in_progress());
}

#[test]
fn assembler_keeps_to_its_bound() {
    let mut a = MessageAssembler::new(4);
    assert_eq!(a.push(text(b"abcd", true)).unwrap(), Some(Message::Text("abcd".to_owned())));
    assert_eq!(a.push(text(b"abcde", true)).unwrap_err().kind, Kind::CapacityExceeded);
    assert_eq!(a.push(text(b"abc", false)).unwrap(), None);
    assert_eq!(a.push(cont(b"d", false)).unwrap(), None);
    assert_eq!(a.push(cont(b"e", true)).unwrap_err().kind, Kind::CapacityExceeded);
    assert!(!a.in_progress());
    a.push(text(b"abc", false)).unwrap();
    a.reset();
    assert!(!a.in_progress());
    assert_eq!(a.push(cont(b"d", true)).unwrap_err().kind, Kind::ProtocolViolation);
}

#[test]
fn a_new_session_is_connecting_and_passes_frames_over() {
    let mut s = Session::new(Role::Server, &Settings::new());
    assert_eq!(s.state(), State::Connecting);
    assert_eq!(s.role(), Role::Server);
    assert!(!s.is_closed());
    assert!(!s.wants_write());
    assert_eq!(next(&s), None);
    assert_eq!(s.deadline(), None);
    assert_eq!(s.on_frame(text(b"x", true), 0).unwrap(), None);
    assert_eq!(s.frame_for(Message::Text("x".into())), None);
    assert_eq!(s.state(), State::Connecting);
}

#[test]
fn an_open_session_answers_a_ping_with_its_payload() {
    let mut s = open_session(Role::Server);
    let action = s.on_frame(make_ping(vec![1, 2, 3]).unwrap(), 5).unwrap();
    assert_eq!(action, Some(Action::Send(control(OpCode::Pong, vec![1, 2, 3]))));
    assert_eq!(s.state(), State::Open);
    assert_eq!(s.last_pong(), None);
    assert_eq!(s.on_frame(control(OpCode::Pong, vec![9]), 7).unwrap(), None);
    assert_eq!(s.last_pong(), Some(7));
    assert_eq!(s.state(), State::Open);
}

#[test]
fn an_open_session_delivers_messages() {
    let mut s = open_session(Role::Server);
    assert_eq!(s.on_frame(text(b"h", false), 0).unwrap(), None);
    assert_eq!(
        s.on_frame(cont(b"i", true), 0).unwrap(),
        Some(Action::Deliver(Message::Text("hi".to_owned())))
    );
    assert_eq!(
        s.on_frame(message(vec![7], OpCode::Binary, true), 0).unwrap(),
        Some(Action::Deliver(Message::Binary(vec![7])))
    );
    assert_eq!(s.on_frame(cont(b"i", true), 0).unwrap_err().kind, Kind::ProtocolViolation);
    assert_eq!(s.state(), State::Open);
}

#[test]
fn peer_close_is_echoed_and_ends_after_the_echo_is_written() {
    let mut s = open_session(Role::Server);
    let action = s.on_frame(make_close(CloseCode::Normal, b"bye"), 1_000).unwrap();
    assert_eq!(action, Some(Action::Send(make_close(CloseCode::Normal, b""))));
    assert_eq!(s.state(), State::Closing);
    assert_eq!(s.deadline(), Some(11_000));
    // Nothing happens before the echo is on the queue and written.
    s.enqueue(make_close(CloseCode::Normal, b""), [0; 4]);
    assert_eq!(next(&s), Some(vec![0x88, 0x02, 0x03, 0xE8]));
    assert_eq!(s.on_flushed(), None);
    assert_eq!(s.state(), State::Closing);
    written_whole(&mut s);
    assert_eq!(s.on_flushed(), Some(Action::Notify(CloseCode::Normal, "bye".to_owned())));
    assert_eq!(s.state(), State::Closed);
    assert_eq!(s.deadline(), None);
    // The end is the end, and nothing is notified twice.
    assert_eq!(s.on_flushed(), None);
    assert_eq!(s.on_tick(99_999), None);
    assert_eq!(s.on_disconnected(), None);
    assert_eq!(s.on_error(Kind::Internal, 0), None);
    assert_eq!(s.on_close(CloseCode::Normal, b"", 0), None);
    assert_eq!(s.on_frame(make_close(CloseCode::Normal, b"x"), 0).unwrap(), None);
    assert_eq!(s.state(), State::Closed);
}

#[test]
fn own_close_waits_for_the_peer() {
    let mut s = open_session(Role::Client);
    let action = s.on_close(CloseCode::GoingAway, b"done", 500);
    assert_eq!(action, Some(Action::Send(make_close(CloseCode::GoingAway, b"done"))));
    assert_eq!(s.state(), State::Closing);
    assert_eq!(s.deadline(), Some(10_500));
    // Frames in flight are passed over; flushing does not end the session.
    assert_eq!(s.on_frame(text(b"late", true), 600).unwrap(), None);
    assert_eq!(s.on_frame(make_ping(vec![]).unwrap(), 600).unwrap(), None);
    assert_eq!(s.on_flushed(), None);
    assert_eq!(s.state(), State::Closing);
    let action = s.on_frame(make_close(CloseCode::GoingAway, b"ok"), 700).unwrap();
    assert_eq!(action, Some(Action::Notify(CloseCode::GoingAway, "ok".to_owned())));
    assert_eq!(s.state(), State::Closed);
}

#[test]
fn a_close_that_is_not_answered_times_out() {
    let mut s = open_session(Role::Client);
    s.on_close(CloseCode::Normal, b"", 1_000);
    assert_eq!(s.on_tick(1_000), None);
    assert_eq!(s.on_tick(10_999), None);
    assert_eq!(s.state(), State::Closing);
    assert_eq!(s.on_tick(11_000), None);
    assert_eq!(s.state(), State::Closed);
}

#[test]
fn a_close_whose_echo_is_never_written_times_out_with_one_notification() {
    let mut s = open_session(Role::Server);
    s.on_frame(make_close(CloseCode::Normal, b"bye"), 0).unwrap();
    s.enqueue(make_close(CloseCode::Normal, b""), [0; 4]);
    assert_eq!(s.on_tick(9_999), None);
    assert_eq!(s.on_tick(10_000), Some(Action::Notify(CloseCode::Normal, "bye".to_owned())));
    assert_eq!(s.state(), State::Closed);
    assert_eq!(s.on_tick(20_000), None);
    assert_eq!(s.on_disconnected(), None);
}

#[test]
fn the_deadline_does_not_overflow() {
    let mut s = open_session(Role::Server);
    s.on_close(CloseCode::Normal, b"", u64::MAX - 5);
    assert_eq!(s.deadline(), Some(u64::MAX));
    assert_eq!(s.on_tick(u64::MAX - 1), None);
    assert_eq!(s.state(), State::Closing);
    s.on_tick(u64::MAX);
    assert_eq!(s.state(), State::Closed);
}

#[test]
fn an_empty_close_frame_is_echoed_empty() {
    let mut s = open_session(Role::Server);
    let action = s.on_frame(control(OpCode::Close, vec![]), 0).unwrap();
    assert_eq!(action, Some(Action::Send(control(OpCode::Close, vec![]))));
    assert_eq!(s.on_disconnected(), Some(Action::Notify(CloseCode::Other(1005), String::new())));
}

#[test]
fn a_malformed_close_frame_is_a_violation() {
    let mut s = open_session(Role::Server);
    let err = s.on_frame(control(OpCode::Close, vec![0x03]), 0).unwrap_err();
    assert_eq!(err.kind, Kind::ProtocolViolation);
    assert_eq!(s.state(), State::Open);
    let action = s.on_error(err.kind, 7);
    assert_eq!(
        action,
        Some(Action::Send(make_close(CloseCode::ProtocolError, b"protocol violation")))
    );
    assert_eq!(s.state(), State::Closing);
    assert_eq!(s.deadline(), Some(10_007));
}

#[test]
fn errors_close_with_the_code_of_their_kind() {
    let table = [
        (Kind::IoFailure, 1002u16, "socket failure"),
        (Kind::ProtocolViolation, 1002, "protocol violation"),
        (Kind::CapacityExceeded, 1009, "message too big"),
        (Kind::HandshakeFailure, 1002, "handshake failed"),
        (Kind::Internal, 1011, "internal error"),
        (Kind::Custom, 1008, "rejected by application"),
    ];
    for (kind, code, reason) in table {
        let mut s = open_session(Role::Server);
        let action = s.on_error(kind, 0);
        let mut payload = vec![(code / 256) as u8, (code % 256) as u8];
        payload.extend_from_slice(reason.as_bytes());
        assert_eq!(action, Some(Action::Send(control(OpCode::Close, payload))));
        assert_eq!(s.state(), State::Closing);
        // A second error while closing ends the session.
        assert_eq!(s.on_error(kind, 1), None);
        assert_eq!(s.state(), State::Closed);
    }
}

#[test]
fn a_socket_fault_ends_the_session_at_once() {
    for start in [State::Connecting, State::Open, State::Closing] {
        let mut s = Session::new(Role::Server, &Settings::new());
        if start != State::Connecting {
            s.opened();
        }
        if start == State::Closing {
            s.on_close(CloseCode::Normal, b"", 0);
        }
        assert_eq!(s.state(), start);
        assert_eq!(s.on_disconnected(), None);
        assert_eq!(s.state(), State::Closed);
    }
}

#[test]
fn a_failure_that_is_not_the_sockets_closes_with_a_code_whatever_its_kind() {
    let mut s = open_session(Role::Server);
    let action = s.on_error(Kind::IoFailure, 3);
    assert_eq!(
        action,
        Some(Action::Send(make_close(CloseCode::ProtocolError, b"socket failure")))
    );
    assert_eq!(s.state(), State::Closing);
    assert_eq!(s.deadline(), Some(10_003));
}

#[test]
fn a_connecting_session_ends_on_close_and_on_error() {
    let mut s = Session::new(Role::Client, &Settings::new());
    assert_eq!(s.on_close(CloseCode::Normal, b"", 0), None);
    assert_eq!(s.state(), State::Closed);
    let mut s = Session::new(Role::Client, &Settings::new());
    assert_eq!(s.on_error(Kind::HandshakeFailure, 0), None);
    assert_eq!(s.state(), State::Closed);
    // Opening is for connecting sessions only.
    s.opened();
    assert_eq!(s.state(), State::Closed);
}

#[test]
fn a_client_masks_and_a_server_does_not() {
    let mut c = open_session(Role::Client);
    c.enqueue(text(b"Hello", true), [0x37, 0xfa, 0x21, 0x3d]);
    assert_eq!(
        next(&c),
        Some(vec![0x81, 0x85, 0x37, 0xfa, 0x21, 0x3d, 0x7f, 0x9f, 0x4d, 0x51, 0x58])
    );
    let mut s = open_session(Role::Server);
    let mut masked = text(b"Hello", true);
    masked.set_masked(true);
    s.enqueue(masked, [0x37, 0xfa, 0x21, 0x3d]);
    assert_eq!(next(&s), Some(vec![0x81, 0x05, 0x48, 0x65, 0x6c, 0x6c, 0x6f]));
}

#[test]
fn what_a_client_queues_a_server_decodes() {
    let mut c = open_session(Role::Client);
    let frame = c.frame_for(Message::Text("gr\u{fc}\u{df}e".to_owned())).unwrap();
    c.enqueue(frame, [9, 8, 7, 6]);
    let bytes = next(&c).unwrap();
    let cfg: CodecConfig = Settings::new().codec(Role::Server);
    let (decoded, used) = decode(&bytes, &cfg).unwrap();
    assert_eq!(used, bytes.len());
    let mut s = open_session(Role::Server);
    assert_eq!(
        s.on_frame(decoded.unwrap(), 0).unwrap(),
        Some(Action::Deliver(Message::Text("gr\u{fc}\u{df}e".to_owned())))
    );
}

#[test]
fn output_leaves_in_the_order_it_was_queued() {
    let mut s = open_session(Role::Server);
    s.enqueue_bytes(b"first".to_vec());
    s.enqueue(text(b"2", true), [0; 4]);
    s.enqueue(make_ping(vec![3]).unwrap(), [0; 4]);
    assert!(s.wants_write());
    assert_eq!(next(&s), Some(b"first".to_vec()));
    written_whole(&mut s);
    assert_eq!(next(&s), Some(encode(&text(b"2", true), [0; 4])));
    written_whole(&mut s);
    assert_eq!(next(&s), Some(vec![0x89, 1, 3]));
    written_whole(&mut s);
    assert_eq!(next(&s), None);
    assert!(!s.wants_write());
    written_whole(&mut s);
    assert_eq!(next(&s), None);
}

#[test]
fn no_data_leaves_once_closing() {
    let mut s = open_session(Role::Server);
    let held_back = s.frame_for(Message::Binary(vec![1])).unwrap();
    s.on_close(CloseCode::Normal, b"", 0);
    assert_eq!(s.frame_for(Message::Binary(vec![2])), None);
    s.enqueue(held_back, [0; 4]);
    assert!(!s.wants_write());
    // Control frames still leave.
    s.enqueue(make_close(CloseCode::Normal, b""), [0; 4]);
    assert!(s.wants_write());
    s.on_disconnected();
    written_whole(&mut s);
    s.enqueue(make_close(CloseCode::Normal, b""), [0; 4]);
    assert!(!s.wants_write());
}

#[test]
fn output_may_leave_a_few_bytes_at_a_time() {
    let mut s = open_session(Role::Server);
    s.enqueue_bytes(b"abcdef".to_vec());
    s.enqueue_bytes(b"gh".to_vec());
    assert_eq!(next(&s), Some(b"abcdef".to_vec()));
    s.written(2);
    assert_eq!(next(&s), Some(b"cdef".to_vec()));
    s.written(0);
    assert_eq!(next(&s), Some(b"cdef".to_vec()));
    // More than is left of the chunk changes nothing.
    s.written(5);
    assert_eq!(next(&s), Some(b"cdef".to_vec()));
    s.written(3);
    assert_eq!(next(&s), Some(b"f".to_vec()));
    s.written(1);
    assert_eq!(next(&s), Some(b"gh".to_vec()));
    s.written(2);
    assert_eq!(next(&s), None);
    assert!(!s.wants_write());
    s.written(1);
    assert_eq!(next(&s), None);
}

#[test]
fn the_echo_must_leave_whole_before_the_session_ends() {
    let mut s = open_session(Role::Server);
    s.on_frame(make_close(CloseCode::Normal, b"bye"), 0).unwrap();
    s.enqueue(make_close(CloseCode::Normal, b""), [0; 4]);
    s.written(3);
    assert_eq!(s.on_flushed(), None);
    assert_eq!(s.state(), State::Closing);
    s.written(1);
    assert_eq!(s.on_flushed(), Some(Action::Notify(CloseCode::Normal, "bye".to_owned())));
    assert_eq!(s.state(), State::Closed);
}

fn sample_request() -> Request {
    Request::new(b"/x".to_vec(), b"h:1".to_vec(), &[7u8; 16])
}

#[test]
fn an_answer_with_status_101_opens_the_session() {
    let response = Response::from_request(&sample_request()).unwrap();
    let same = Response::from_request(&sample_request()).unwrap();
    let bytes = response.format();
    let mut s = Session::new(Role::Server, &Settings::new());
    assert_eq!(s.answered(Ok(response)), Ok(same));
    assert_eq!(s.state(), State::Open);
    assert_eq!(next(&s), Some(bytes));
}

#[test]
fn an_answer_with_another_status_is_sent_and_fails_the_handshake() {
    let mut response = Response::from_request(&sample_request()).unwrap();
    response.status = 403;
    response.reason = b"Forbidden".to_vec();
    let bytes = response.format();
    let mut s = Session::new(Role::Server, &Settings::new());
    assert_eq!(s.answered(Ok(response)), Err(ws::result::Error::of(Kind::HandshakeFailure)));
    assert_eq!(s.state(), State::Connecting);
    assert_eq!(next(&s), Some(bytes));
}

#[test]
fn a_refused_request_leaves_the_session_as_it_is() {
    let refusal = ws::result::Error::new(Kind::Custom, "no");
    let mut s = Session::new(Role::Server, &Settings::new());
    assert_eq!(s.answered(Err(refusal.clone())), Err(refusal));
    assert_eq!(s.state(), State::Connecting);
    assert!(!s.wants_write());
}

#[test]
fn a_client_opens_on_the_answer_to_its_own_request_only() {
    let request = sample_request();
    let response = Response::from_request(&request).unwrap();
    let mut s = Session::new(Role::Client, &Settings::new());
    assert_eq!(s.confirmed(Ok(()), &response, &request), Ok(()));
    assert_eq!(s.state(), State::Open);

    let other = Request::new(b"/x".to_vec(), b"h:1".to_vec(), &[8u8; 16]);
    let mut s = Session::new(Role::Client, &Settings::new());
    assert_eq!(
        s.confirmed(Ok(()), &response, &other),
        Err(ws::result::Error::of(Kind::HandshakeFailure))
    );
    assert_eq!(s.state(), State::Connecting);

    let refusal = ws::result::Error::new(Kind::Custom, "no");
    let mut s = Session::new(Role::Client, &Settings::new());
    assert_eq!(s.confirmed(Err(refusal.clone()), &response, &request), Err(refusal));
    assert_eq!(s.state(), State::Connecting);
}
