use ws::close::{make_close, make_ping};
use ws::connection::Connection;
use ws::codec::{decode, encode};
use ws::frame::Frame;
use ws::handler::{DefaultHandler, Handler};
use ws::handshake::{Handshake, Request, Response};
use ws::message::Message;
use ws::protocol::{CloseCode, OpCode};
use ws::registry::Registry;
use ws::result::{Error, Kind};
use ws::session::{Role, Settings, State};

fn message(payload: Vec<u8>, opcode: OpCode, fin: bool) -> Frame {
    Frame::new(fin, opcode, payload).unwrap()
}

#[derive(Default)]
struct Recorder {
    opened: usize,
    messages: Vec<Message>,
    closes: Vec<(CloseCode, String)>,
    errors: Vec<Kind>,
    shutdowns: usize,
    refuse_messages: bool,
    drop_frames: bool,
    swallow_errors: bool,
}

impl Handler for Recorder {
    fn on_shutdown(&mut self) {
        self.shutdowns += 1;
    }

    fn on_open(&mut self, _shake: Handshake) -> Result<(), Error> {
        self.opened += 1;
        Ok(())
    }

    fn on_message(&mut self, msg: Message) -> Result<(), Error> {
        self.messages.push(msg);
        if self.refuse_messages {
            Err(Error::new(Kind::Custom, "refused"))
        } else {
            Ok(())
        }
    }

    fn on_close(&mut self, code: CloseCode, reason: &str) {
        self.closes.push((code, reason.to_owned()));
    }

    fn on_error(&mut self, err: Error) -> Option<Error> {
        self.errors.push(err.kind);
        if self.swallow_errors {
            None
        } else {
            Some(err)
        }
    }

    fn on_frame(&mut self, frame: Frame) -> Result<Option<Frame>, Error> {
        if self.drop_frames {
            Ok(None)
        } else {
            ws::handler::reject_reserved_bits(frame)
        }
    }
}

fn client_bytes(frame: Frame) -> Vec<u8> {
    let mut frame = frame;
    frame.set_masked(true);
    encode(&frame, [0x11, 0x22, 0x33, 0x44])
}

fn request_bytes() -> Vec<u8> {
    let url = url::Url::parse("ws://example.com/chat").unwrap();
    Request::from_url(&url).unwrap().format()
}

fn open_server(handler: Recorder) -> Connection<Recorder> {
    let mut conn = Connection::accept(handler, Settings::new());
    assert_eq!(conn.state(), State::Connecting);
    conn.receive(&request_bytes(), 0);
    assert_eq!(conn.state(), State::Open);
    assert_eq!(conn.handler().opened, 1);
    let response = conn.next_output().unwrap().to_vec();
    assert!(response.starts_with(b"HTTP/1.1 101 Switching Protocols\r\n"));
    conn.written(response.len(), 0);
    assert!(!conn.wants_write());
    conn
}

fn drain(conn: &mut Connection<Recorder>) -> Vec<Vec<u8>> {
    let mut chunks = Vec::new();
    while let Some(chunk) = conn.next_output() {
        let chunk = chunk.to_vec();
        conn.written(chunk.len(), 0);
        chunks.push(chunk);
    }
    chunks
}

#[test]
fn two_fragments_are_one_message() {
    let mut conn = open_server(Recorder::default());
    conn.receive(&client_bytes(message(b"h".to_vec(), OpCode::Text, false)), 1);
    assert!(conn.handler().messages.is_empty());
    conn.receive(&client_bytes(message(b"i".to_vec(), OpCode::Continuation, true)), 2);
    assert_eq!(conn.handler().messages, vec![Message::Text("hi".to_owned())]);
    assert_eq!(conn.state(), State::Open);
    assert!(conn.handler().errors.is_empty());
}

#[test]
fn fragments_may_arrive_byte_by_byte_or_all_at_once() {
    let mut bytes = client_bytes(message(b"h".to_vec(), OpCode::Text, false));
    bytes.extend(client_bytes(make_ping(vec![1]).unwrap()));
    bytes.extend(client_bytes(message(b"i".to_vec(), OpCode::Continuation, true)));
    bytes.extend(client_bytes(message(vec![1, 2], OpCode::Binary, true)));
    let expected = vec![Message::Text("hi".to_owned()), Message::Binary(vec![1, 2])];

    let mut at_once = open_server(Recorder::default());
    at_once.receive(&bytes, 1);
    assert_eq!(at_once.handler().messages, expected);
    assert_eq!(drain(&mut at_once), vec![vec![0x8A, 1, 1]]);

    let mut slowly = open_server(Recorder::default());
    for b in &bytes {
        slowly.receive(&[*b], 1);
    }
    assert_eq!(slowly.handler().messages, expected);
    assert_eq!(drain(&mut slowly), vec![vec![0x8A, 1, 1]]);
}

#[test]
fn a_request_without_version_fails_the_handshake() {
    let url = url::Url::parse("ws://example.com/chat").unwrap();
    let mut request = Request::from_url(&url).unwrap();
    request.headers.retain(|h| h.name != b"Sec-WebSocket-Version");
    let mut conn = Connection::accept(Recorder::default(), Settings::new());
    conn.receive(&request.format(), 0);
    assert_eq!(conn.state(), State::Closed);
    assert_eq!(conn.handler().opened, 0);
    assert_eq!(conn.handler().errors, vec![Kind::HandshakeFailure]);
    assert!(conn.handler().messages.is_empty());
    assert!(conn.handler().closes.is_empty());
    assert!(!conn.wants_write());
    let reports = conn.take_reports();
    assert_eq!(reports, vec![Error::of(Kind::HandshakeFailure)]);
    assert!(conn.take_reports().is_empty());
    // Whatever follows is dropped.
    conn.receive(&client_bytes(message(b"x".to_vec(), OpCode::Text, true)), 1);
    assert!(conn.handler().messages.is_empty());
    assert_eq!(conn.state(), State::Closed);
}

#[test]
fn peer_close_is_echoed_then_the_connection_ends() {
    let mut conn = open_server(Recorder::default());
    conn.receive(&client_bytes(make_close(CloseCode::Normal, b"bye")), 100);
    assert_eq!(conn.state(), State::Closing);
    assert_eq!(conn.deadline(), Some(10_100));
    assert!(conn.handler().closes.is_empty());
    assert_eq!(conn.next_output(), Some(&[0x88, 0x02, 0x03, 0xE8][..]));
    conn.written(3, 101);
    assert_eq!(conn.state(), State::Closing);
    assert_eq!(conn.next_output(), Some(&[0xE8][..]));
    conn.written(1, 101);
    assert_eq!(conn.state(), State::Closed);
    assert_eq!(conn.handler().closes, vec![(CloseCode::Normal, "bye".to_owned())]);
    // Nothing that follows notifies again.
    conn.tick(50_000);
    conn.disconnected(50_001);
    conn.written(1, 50_002);
    conn.close(CloseCode::Normal, "", 50_003);
    conn.shutdown(50_004);
    conn.io_error(Some(104), 50_005);
    conn.receive(&client_bytes(make_close(CloseCode::Normal, b"again")), 50_006);
    assert_eq!(conn.handler().closes, vec![(CloseCode::Normal, "bye".to_owned())]);
    assert_eq!(conn.state(), State::Closed);
}

#[test]
fn a_close_without_answer_is_given_up_at_the_deadline() {
    let mut conn = open_server(Recorder::default());
    conn.close(CloseCode::GoingAway, "maintenance", 1_000);
    assert_eq!(conn.state(), State::Closing);
    let mut expected = vec![0x88, 13, 0x03, 0xE9];
    expected.extend_from_slice(b"maintenance");
    assert_eq!(drain(&mut conn), vec![expected]);
    assert_eq!(conn.state(), State::Closing);
    conn.tick(10_999);
    assert_eq!(conn.state(), State::Closing);
    conn.tick(11_000);
    assert_eq!(conn.state(), State::Closed);
    assert!(conn.handler().closes.is_empty());
}

#[test]
fn a_peer_close_whose_echo_stalls_is_given_up_with_one_notification() {
    let mut conn = open_server(Recorder::default());
    conn.receive(&client_bytes(make_close(CloseCode::Normal, b"bye")), 0);
    assert_eq!(conn.state(), State::Closing);
    conn.tick(9_999);
    assert_eq!(conn.state(), State::Closing);
    conn.tick(10_000);
    assert_eq!(conn.state(), State::Closed);
    conn.tick(10_001);
    conn.written(4, 10_002);
    assert_eq!(conn.handler().closes, vec![(CloseCode::Normal, "bye".to_owned())]);
}

#[test]
fn own_close_is_completed_by_the_peer() {
    let mut conn = open_server(Recorder::default());
    conn.close(CloseCode::Normal, "", 0);
    drain(&mut conn);
    conn.receive(&client_bytes(message(b"late".to_vec(), OpCode::Text, true)), 1);
    assert!(conn.handler().messages.is_empty());
    conn.receive(&client_bytes(make_close(CloseCode::Normal, b"ok")), 2);
    assert_eq!(conn.state(), State::Closed);
    assert_eq!(conn.handler().closes, vec![(CloseCode::Normal, "ok".to_owned())]);
}

#[test]
fn a_ping_is_answered() {
    let mut conn = open_server(Recorder::default());
    conn.receive(&client_bytes(make_ping(b"abc".to_vec()).unwrap()), 0);
    assert_eq!(drain(&mut conn), vec![vec![0x8A, 3, b'a', b'b', b'c']]);
    assert_eq!(conn.state(), State::Open);
}

#[test]
fn a_pong_is_taken_note_of() {
    let mut conn = open_server(Recorder::default());
    assert_eq!(conn.last_pong(), None);
    conn.receive(&client_bytes(Frame::new(true, OpCode::Pong, vec![1]).unwrap()), 42);
    assert_eq!(conn.last_pong(), Some(42));
    assert!(!conn.wants_write());
    assert_eq!(conn.state(), State::Open);
}

#[test]
fn a_dropped_frame_is_forgotten() {
    let mut conn = open_server(Recorder { drop_frames: true, ..Recorder::default() });
    conn.receive(&client_bytes(make_ping(b"abc".to_vec()).unwrap()), 0);
    conn.receive(&client_bytes(message(b"x".to_vec(), OpCode::Text, true)), 0);
    conn.receive(&client_bytes(message(b"y".to_vec(), OpCode::Continuation, true)), 0);
    conn.receive(&client_bytes(make_close(CloseCode::Normal, b"")), 0);
    assert!(!conn.wants_write());
    assert!(conn.handler().messages.is_empty());
    assert!(conn.handler().errors.is_empty());
    assert_eq!(conn.state(), State::Open);
}

#[test]
fn a_malformed_frame_closes_with_protocol_error() {
    let mut conn = open_server(Recorder::default());
    // An unmasked frame from a client.
    conn.receive(&[0x81, 0x01, b'x'], 5);
    assert_eq!(conn.state(), State::Closing);
    assert_eq!(conn.handler().errors, vec![Kind::ProtocolViolation]);
    assert!(conn.handler().messages.is_empty());
    let mut expected = vec![0x88, 20, 0x03, 0xEA];
    expected.extend_from_slice(b"protocol violation");
    assert_eq!(drain(&mut conn), vec![expected]);
    assert_eq!(conn.take_reports(), vec![Error::of(Kind::ProtocolViolation)]);
}

#[test]
fn a_reserved_bit_closes_with_protocol_error() {
    let mut conn = open_server(Recorder::default());
    let mut frame = message(b"x".to_vec(), OpCode::Text, true);
    frame.set_rsv1(true);
    conn.receive(&client_bytes(frame), 5);
    assert_eq!(conn.state(), State::Closing);
    assert_eq!(conn.handler().errors, vec![Kind::ProtocolViolation]);
    assert!(conn.handler().messages.is_empty());
}

#[test]
fn a_claimed_reserved_bit_reaches_the_frame_hook() {
    let settings = Settings { allow_rsv1: true, ..Settings::new() };
    let mut conn = Connection::accept(Recorder::default(), settings);
    conn.receive(&request_bytes(), 0);
    drain(&mut conn);
    let mut frame = message(b"x".to_vec(), OpCode::Text, true);
    frame.set_rsv1(true);
    conn.receive(&client_bytes(frame), 5);
    // The decoder lets it pass; the default hook of the handler, with no
    // extension of its own, still refuses it.
    assert_eq!(conn.state(), State::Closing);
    assert_eq!(conn.handler().errors, vec![Kind::ProtocolViolation]);
}

#[test]
fn an_oversized_frame_closes_with_message_too_big() {
    let settings = Settings { max_payload: 10, ..Settings::new() };
    let mut conn = Connection::accept(Recorder::default(), settings);
    conn.receive(&request_bytes(), 0);
    drain(&mut conn);
    // Only the header of a frame of eleven bytes.
    conn.receive(&[0x82, 0x80 | 11, 0, 0, 0, 0], 5);
    assert_eq!(conn.state(), State::Closing);
    assert_eq!(conn.handler().errors, vec![Kind::CapacityExceeded]);
    let mut expected = vec![0x88, 17, 0x03, 0xF1];
    expected.extend_from_slice(b"message too big");
    assert_eq!(drain(&mut conn), vec![expected]);
}

#[test]
fn an_oversized_message_closes_with_message_too_big() {
    let settings = Settings { max_message: 3, ..Settings::new() };
    let mut conn = Connection::accept(Recorder::default(), settings);
    conn.receive(&request_bytes(), 0);
    drain(&mut conn);
    conn.receive(&client_bytes(message(b"ab".to_vec(), OpCode::Text, false)), 1);
    conn.receive(&client_bytes(message(b"cd".to_vec(), OpCode::Continuation, true)), 2);
    assert_eq!(conn.state(), State::Closing);
    assert_eq!(conn.handler().errors, vec![Kind::CapacityExceeded]);
    assert!(conn.handler().messages.is_empty());
}

#[test]
fn text_that_is_no_text_is_not_delivered() {
    let mut conn = open_server(Recorder::default());
    conn.receive(&client_bytes(message(vec![0xFF], OpCode::Text, true)), 1);
    assert!(conn.handler().messages.is_empty());
    assert_eq!(conn.handler().errors, vec![Kind::ProtocolViolation]);
    assert_eq!(conn.state(), State::Closing);
}

#[test]
fn a_refused_message_closes_the_connection() {
    let mut conn = open_server(Recorder { refuse_messages: true, ..Recorder::default() });
    conn.receive(&client_bytes(message(b"x".to_vec(), OpCode::Text, true)), 1);
    assert_eq!(conn.handler().messages, vec![Message::Text("x".to_owned())]);
    assert_eq!(conn.handler().errors, vec![Kind::Custom]);
    assert_eq!(conn.state(), State::Closing);
    let mut expected = vec![0x88, 25, 0x03, 0xF0];
    expected.extend_from_slice(b"rejected by application");
    assert_eq!(drain(&mut conn), vec![expected]);
    assert_eq!(conn.take_reports(), vec![Error::new(Kind::Custom, "refused")]);
}

#[derive(Default)]
struct Faulty {
    kind: Option<Kind>,
    errors: Vec<Kind>,
}

impl Handler for Faulty {
    fn on_message(&mut self, _msg: Message) -> Result<(), Error> {
        match self.kind {
            Some(kind) => Err(Error { kind, os_error: Some(104), details: "hook".to_owned() }),
            None => Ok(()),
        }
    }

    fn on_error(&mut self, err: Error) -> Option<Error> {
        self.errors.push(err.kind);
        None
    }
}

#[test]
fn a_failing_message_hook_closes_with_a_code_whatever_the_kind() {
    let table = [
        (Kind::IoFailure, 1002u16),
        (Kind::ProtocolViolation, 1002),
        (Kind::CapacityExceeded, 1009),
        (Kind::HandshakeFailure, 1002),
        (Kind::Internal, 1011),
        (Kind::Custom, 1008),
    ];
    for (kind, code) in table {
        let mut a = Connection::accept(Faulty { kind: Some(kind), errors: vec![] }, Settings::new());
        let mut b = Connection::accept(Faulty::default(), Settings::new());
        a.receive(&request_bytes(), 0);
        b.receive(&request_bytes(), 0);
        let n = a.next_output().unwrap().len();
        a.written(n, 0);
        let n = b.next_output().unwrap().len();
        b.written(n, 0);
        a.receive(&client_bytes(message(b"x".to_vec(), OpCode::Text, true)), 1);
        assert_eq!(a.state(), State::Closing);
        // The hook's error is told to the handler even with the number of a
        // reset on it, unless it is a socket fault by its kind.
        let told = if kind == Kind::IoFailure { vec![] } else { vec![kind] };
        assert_eq!(a.handler().errors, told);
        let close = a.next_output().unwrap().to_vec();
        assert_eq!(close[0], 0x88);
        assert_eq!(u16::from_be_bytes([close[2], close[3]]), code);
        assert!((1000..=4999).contains(&u16::from_be_bytes([close[2], close[3]])));
        // The other connection is as it was.
        assert_eq!(b.state(), State::Open);
        assert!(!b.wants_write());
        assert!(b.handler().errors.is_empty());
    }
}

#[test]
fn input_without_a_whole_frame_is_kept() {
    let mut conn = open_server(Recorder::default());
    let bytes = client_bytes(message(b"hello".to_vec(), OpCode::Text, true));
    conn.receive(&bytes[..3], 1);
    assert_eq!(conn.state(), State::Open);
    assert!(conn.handler().messages.is_empty());
    assert!(conn.handler().errors.is_empty());
    assert!(!conn.wants_write());
    conn.receive(&bytes[3..], 2);
    assert_eq!(conn.handler().messages, vec![Message::Text("hello".to_owned())]);
}

#[test]
fn a_clean_end_of_the_stream_is_no_error() {
    let mut registry: Registry<Recorder> = Registry::new();
    let a = registry.insert(open_server(Recorder::default()));
    assert!(registry.disconnected(a, 5));
    assert!(!registry.disconnected(9, 5));
    assert_eq!(registry.state(a), Some(State::Closed));
    assert!(registry.take_reports(a).is_empty());
    let gone = registry.remove(a).unwrap();
    assert!(gone.handler().errors.is_empty());
    assert!(gone.handler().closes.is_empty());
}

#[test]
fn the_registry_hands_reports_over() {
    let mut registry: Registry<Recorder> = Registry::new();
    let a = registry.insert(open_server(Recorder::default()));
    assert!(registry.lost(a, Some(32), 5));
    assert_eq!(registry.take_reports(a), vec![Error::io(Some(32))]);
    assert!(registry.take_reports(a).is_empty());
    assert!(registry.take_reports(7).is_empty());
}

#[test]
fn a_reset_by_the_peer_is_passed_over_in_silence() {
    let mut conn = open_server(Recorder::default());
    conn.io_error(Some(104), 1);
    assert_eq!(conn.state(), State::Closed);
    assert!(conn.handler().errors.is_empty());
    assert!(conn.take_reports().is_empty());

    let mut conn = open_server(Recorder::default());
    conn.io_error(Some(32), 1);
    assert_eq!(conn.state(), State::Closed);
    assert_eq!(conn.handler().errors, vec![Kind::IoFailure]);
    assert_eq!(conn.take_reports(), vec![Error::io(Some(32))]);

    let settings = Settings { ignored_os_error: Some(10054), ..Settings::new() };
    let mut conn = Connection::accept(Recorder::default(), settings);
    conn.io_error(Some(104), 1);
    assert_eq!(conn.handler().errors, vec![Kind::IoFailure]);
    conn.io_error(Some(10054), 1);
    assert_eq!(conn.handler().errors, vec![Kind::IoFailure]);
}

#[test]
fn a_handler_may_keep_errors_to_itself() {
    let mut conn = open_server(Recorder { swallow_errors: true, ..Recorder::default() });
    conn.receive(&[0x81, 0x01, b'x'], 5);
    assert_eq!(conn.handler().errors, vec![Kind::ProtocolViolation]);
    assert!(conn.take_reports().is_empty());
}

#[test]
fn sending_needs_an_open_connection() {
    let mut conn = Connection::accept(Recorder::default(), Settings::new());
    assert!(!conn.send(Message::Text("early".to_owned()), 0));
    assert!(!conn.wants_write());
    let mut conn = open_server(Recorder::default());
    assert!(conn.send(Message::Text("hi".to_owned()), 0));
    assert!(conn.send(Message::Binary(vec![1, 2, 3]), 0));
    assert_eq!(drain(&mut conn), vec![vec![0x81, 2, b'h', b'i'], vec![0x82, 3, 1, 2, 3]]);
    conn.close(CloseCode::Normal, "", 0);
    assert!(!conn.send(Message::Text("late".to_owned()), 0));
    assert_eq!(drain(&mut conn).len(), 1);
}

#[test]
fn a_client_and_a_server_talk() {
    let url = url::Url::parse("ws://example.com/chat").unwrap();
    let mut client = Connection::connect(Recorder::default(), Settings::new(), &url).unwrap();
    let mut server = Connection::accept(Recorder::default(), Settings::new());
    client.set_addresses(Some("10.0.0.2:80".to_owned()), Some("10.0.0.1:5000".to_owned()));
    assert_eq!(client.state(), State::Connecting);
    for chunk in drain(&mut client) {
        server.receive(&chunk, 0);
    }
    assert_eq!(server.state(), State::Open);
    for chunk in drain(&mut server) {
        client.receive(&chunk, 0);
    }
    assert_eq!(client.state(), State::Open);
    assert_eq!(client.handler().opened, 1);

    assert!(client.send(Message::Text("ping?".to_owned()), 1));
    let chunks = drain(&mut client);
    // What a client sends is masked.
    assert_eq!(chunks[0][1] & 0x80, 0x80);
    for chunk in chunks {
        server.receive(&chunk, 1);
    }
    assert_eq!(server.handler().messages, vec![Message::Text("ping?".to_owned())]);
    assert!(server.send(Message::Binary(vec![9; 70_000]), 2));
    for chunk in drain(&mut server) {
        client.receive(&chunk, 2);
    }
    assert_eq!(client.handler().messages, vec![Message::Binary(vec![9; 70_000])]);

    client.close(CloseCode::Normal, "done", 3);
    for chunk in drain(&mut client) {
        server.receive(&chunk, 3);
    }
    assert_eq!(server.state(), State::Closing);
    for chunk in drain(&mut server) {
        client.receive(&chunk, 4);
    }
    assert_eq!(server.state(), State::Closed);
    assert_eq!(client.state(), State::Closed);
    assert_eq!(server.handler().closes, vec![(CloseCode::Normal, "done".to_owned())]);
    assert_eq!(client.handler().closes, vec![(CloseCode::Normal, String::new())]);
    assert!(client.handler().errors.is_empty());
    assert!(server.handler().errors.is_empty());
}

#[test]
fn a_client_starts_with_the_request_that_was_built() {
    let request = Request::new(b"/x".to_vec(), b"h:1".to_vec(), &[0u8; 16]);
    let bytes = request.format();
    let mut conn =
        Connection::with_request(Recorder::default(), Settings::new(), Ok(request)).unwrap();
    assert_eq!(conn.state(), State::Connecting);
    assert_eq!(conn.next_output(), Some(&bytes[..]));
    assert_eq!(conn.deadline(), None);
    assert!(conn.take_reports().is_empty());
    conn.written(bytes.len(), 0);
    assert!(!conn.wants_write());
    // The answer to this very request opens the connection.
    let same = Request::new(b"/x".to_vec(), b"h:1".to_vec(), &[0u8; 16]);
    conn.receive(&Response::from_request(&same).unwrap().format(), 1);
    assert_eq!(conn.state(), State::Open);
    assert_eq!(conn.handler().opened, 1);
}

#[test]
fn a_client_that_has_no_request_has_no_connection() {
    let refused = Error::new(Kind::Custom, "not today");
    let r = Connection::with_request(Recorder::default(), Settings::new(), Err(refused.clone()));
    assert_eq!(r.err(), Some(refused));
    let no_host = url::Url::parse("data:text/plain,hello").unwrap();
    let r = Connection::connect(Recorder::default(), Settings::new(), &no_host);
    assert_eq!(r.err(), Some(Error::of(Kind::Internal)));
}

#[test]
fn a_client_refuses_a_wrong_accept_token() {
    let url = url::Url::parse("ws://example.com/chat").unwrap();
    let mut client = Connection::connect(Recorder::default(), Settings::new(), &url).unwrap();
    drain(&mut client);
    let other = Request::from_url(&url).unwrap();
    let response = Response::from_request(&other).unwrap();
    client.receive(&response.format(), 0);
    assert_eq!(client.state(), State::Closed);
    assert_eq!(client.handler().opened, 0);
    assert_eq!(client.handler().errors, vec![Kind::HandshakeFailure]);
}

#[test]
fn a_client_refuses_a_response_that_is_no_upgrade() {
    let url = url::Url::parse("ws://example.com/chat").unwrap();
    let mut client = Connection::connect(Recorder::default(), Settings::new(), &url).unwrap();
    client.receive(b"HTTP/1.1 404 Not Found\r\n\r\n", 0);
    assert_eq!(client.state(), State::Closed);
    assert_eq!(client.handler().opened, 0);
    let mut client = Connection::connect(Recorder::default(), Settings::new(), &url).unwrap();
    client.receive(b"SSH-2.0-OpenSSH\r\n\r\n", 0);
    assert_eq!(client.state(), State::Closed);
    assert_eq!(client.handler().errors, vec![Kind::HandshakeFailure]);
}

#[test]
fn an_endless_handshake_is_cut_off() {
    let settings = Settings { max_handshake: 64, ..Settings::new() };
    let mut conn = Connection::accept(Recorder::default(), settings);
    conn.receive(b"GET / HTTP/1.1\r\n", 0);
    assert_eq!(conn.state(), State::Connecting);
    conn.receive(&[b'a'; 64], 0);
    assert_eq!(conn.state(), State::Closed);
    assert_eq!(conn.handler().errors, vec![Kind::CapacityExceeded]);
}

#[test]
fn frames_may_follow_the_request_in_one_read() {
    let mut bytes = request_bytes();
    bytes.extend(client_bytes(message(b"soon".to_vec(), OpCode::Text, true)));
    let mut conn = Connection::accept(Recorder::default(), Settings::new());
    conn.receive(&bytes, 0);
    assert_eq!(conn.state(), State::Open);
    assert_eq!(conn.handler().messages, vec![Message::Text("soon".to_owned())]);
}

#[test]
fn the_default_handler_serves() {
    let mut conn = Connection::accept(DefaultHandler, Settings::new());
    conn.receive(&request_bytes(), 0);
    assert_eq!(conn.state(), State::Open);
    let n = conn.next_output().unwrap().len();
    conn.written(n, 0);
    conn.receive(&client_bytes(make_ping(vec![]).unwrap()), 0);
    let (frame, _) = decode(conn.next_output().unwrap(), &Settings::new().codec(Role::Client)).unwrap();
    assert_eq!(frame.unwrap().opcode(), OpCode::Pong);
}

#[test]
fn shutdown_closes_every_connection() {
    let mut registry: Registry<Recorder> = Registry::new();
    assert_eq!(registry.capacity(), 0);
    let connecting = registry.insert(Connection::accept(Recorder::default(), Settings::new()));
    let open = registry.insert(open_server(Recorder::default()));
    let mut c = open_server(Recorder::default());
    c.close(CloseCode::Normal, "", 0);
    let closing = registry.insert(c);
    assert_eq!((connecting, open, closing), (0, 1, 2));
    assert_eq!(registry.state(connecting), Some(State::Connecting));
    assert_eq!(registry.state(open), Some(State::Open));
    assert_eq!(registry.state(closing), Some(State::Closing));
    assert_eq!(registry.state(3), None);

    assert_eq!(registry.next_deadline(), Some(10_000));
    registry.shutdown(100);
    assert_eq!(registry.next_deadline(), Some(10_000));
    assert_eq!(registry.state(connecting), Some(State::Closed));
    assert_eq!(registry.state(open), Some(State::Closing));
    assert_eq!(registry.state(closing), Some(State::Closing));
    assert_eq!(registry.next_output(open), Some(vec![0x88, 0x02, 0x03, 0xE8]));

    assert_eq!(registry.sweep(), 1);
    assert!(!registry.contains(connecting));
    assert!(registry.contains(open));
    assert_eq!(registry.capacity(), 3);

    // The close that began before the shutdown is given up first.
    registry.tick(10_000);
    assert_eq!(registry.state(closing), Some(State::Closed));
    assert_eq!(registry.state(open), Some(State::Closing));
    assert_eq!(registry.next_deadline(), Some(10_100));
    registry.tick(10_100);
    assert_eq!(registry.state(open), Some(State::Closed));
    let gone = registry.remove(open).unwrap();
    assert_eq!(gone.handler().shutdowns, 1);
    assert_eq!(registry.sweep(), 1);
    assert_eq!(registry.sweep(), 0);
    assert_eq!(registry.state(closing), None);
    assert_eq!(registry.next_deadline(), None);
}

#[test]
fn the_registry_gives_free_numbers_out_again() {
    let mut registry: Registry<DefaultHandler> = Registry::new();
    for expected in 0..4 {
        let token = registry.insert(Connection::accept(DefaultHandler, Settings::new()));
        assert_eq!(token, expected);
    }
    assert!(registry.remove(1).is_some());
    assert!(registry.remove(1).is_none());
    assert!(registry.remove(3).is_some());
    assert!(registry.remove(9).is_none());
    assert_eq!(registry.insert(Connection::accept(DefaultHandler, Settings::new())), 1);
    assert_eq!(registry.insert(Connection::accept(DefaultHandler, Settings::new())), 3);
    assert_eq!(registry.insert(Connection::accept(DefaultHandler, Settings::new())), 4);
    assert_eq!(registry.capacity(), 5);
}

#[test]
fn the_registry_drives_its_connections() {
    let mut registry: Registry<Recorder> = Registry::new();
    let a = registry.insert(Connection::accept(Recorder::default(), Settings::new()));
    let b = registry.insert(Connection::accept(Recorder::default(), Settings::new()));
    assert!(registry.receive(a, &request_bytes(), 0));
    assert!(!registry.receive(7, &request_bytes(), 0));
    assert_eq!(registry.state(a), Some(State::Open));
    assert_eq!(registry.state(b), Some(State::Connecting));
    assert!(registry.next_output(a).unwrap().starts_with(b"HTTP/1.1 101"));
    let n = registry.next_output(a).unwrap().len();
    assert!(registry.written(a, 10, 0));
    assert_eq!(registry.next_output(a).unwrap().len(), n - 10);
    assert!(registry.written(a, n - 10, 0));
    assert!(!registry.written(7, 0, 0));
    assert_eq!(registry.next_output(a), None);
    assert_eq!(registry.next_output(b), None);
    assert_eq!(registry.next_output(7), None);

    assert!(registry.send(a, Message::Text("x".to_owned()), 1));
    assert!(!registry.send(b, Message::Text("x".to_owned()), 1));
    assert!(!registry.send(7, Message::Text("x".to_owned()), 1));
    assert_eq!(registry.next_output(a), Some(vec![0x81, 1, b'x']));
    registry.written(a, 3, 1);

    assert!(registry.receive(a, &client_bytes(message(b"y".to_vec(), OpCode::Text, true)), 2));
    assert!(registry.close(a, CloseCode::GoingAway, "", 3));
    assert!(!registry.close(7, CloseCode::GoingAway, "", 3));
    assert_eq!(registry.state(a), Some(State::Closing));
    assert!(registry.lost(b, Some(104), 4));
    assert!(!registry.lost(7, None, 4));
    assert_eq!(registry.state(b), Some(State::Closed));
    let a = registry.remove(a).unwrap();
    assert_eq!(a.handler().messages, vec![Message::Text("y".to_owned())]);
}
