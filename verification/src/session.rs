//! The life of one connection: which state it is in, what each event does
//! to it, and what the engine owes the peer and the application in return.

use vstd::prelude::*;
use crate::assembler::{assemble_step, MessageAssembler, Partial, Step};
use crate::bytes::ascii;
use crate::close::{close_frame, close_of, make_close, read_close};
use crate::codec::{encode, encode_frame, CodecConfig};
use crate::frame::{plain_frame, Frame, FrameView};
use crate::handshake::{format_response, response_acceptable, Request, Response, ResponseView};
use crate::message::{Message, MessageView};
use crate::outbox::{
    advanced, joined, lemma_advance_consumes, lemma_push_appends, lemma_queue_grows, pending,
    queue_wf, starts_with, Outbox,
};
use crate::protocol::{CloseCode, OpCode};
use crate::result::{
    fails_with, lemma_sent_code_may_travel, reason_text, sent_code_of, Error, Kind,
};

verus! {

/// Where a connection stands in its life.
#[derive(Clone, Copy, Debug, PartialEq, Eq, Structural)]
pub enum State {
    /// The opening exchange is not complete.
    Connecting,
    /// Frames flow both ways.
    Open,
    /// A close frame was sent or received; the connection waits for the
    /// close to complete or for the timeout.
    Closing,
    /// The end: the socket is released.
    Closed,
}

/// Which end of the connection the engine is.
#[derive(Clone, Copy, Debug, PartialEq, Eq, Structural)]
pub enum Role {
    Client,
    Server,
}

/// The bounds and choices of a connection.
#[derive(Clone, Copy, Debug, PartialEq, Eq)]
pub struct Settings {
    /// The largest payload of one frame.
    pub max_payload: usize,
    /// The largest message.
    pub max_message: usize,
    /// The largest opening request or response.
    pub max_handshake: usize,
    /// For how long, in milliseconds, a close may stay incomplete.
    pub close_timeout: u64,
    /// Whether an extension has claimed the first reserved bit.
    pub allow_rsv1: bool,
    /// Whether an extension has claimed the second reserved bit.
    pub allow_rsv2: bool,
    /// Whether an extension has claimed the third reserved bit.
    pub allow_rsv3: bool,
    /// The operating system's number of the socket fault that is passed
    /// over in silence: the peer's reset of the connection.
    pub ignored_os_error: Option<i32>,
}

/// The mathematical value of a [`Session`].
pub struct SessionView {
    pub role: Role,
    pub state: State,
    pub timeout: u64,
    pub max_message: nat,
    /// The message in the making.
    pub partial: Partial,
    /// The encoded chunks that wait to be written, oldest first.
    pub out: Seq<Seq<u8>>,
    /// How many bytes of the oldest chunk have been written.
    pub sent: nat,
    /// The code and reason of the close frame that the peer sent.
    pub close_received: Option<(CloseCode, Seq<char>)>,
    /// When a close that is under way is given up.
    pub deadline: Option<u64>,
    /// When the peer was last heard to answer a ping.
    pub last_pong: Option<u64>,
}

/// What a step of the session asks for.
pub enum Effect {
    /// Nothing.
    Nothing,
    /// A message for the application.
    Deliver(MessageView),
    /// A frame for the peer.
    Send(FrameView),
    /// The close notification for the application, with the code and reason
    /// that the peer gave.
    Notify(CloseCode, Seq<char>),
    /// The step failed.
    Fail(Kind),
}

/// The time at which a close that starts at `now` is given up.
pub open spec fn deadline_after(now: u64, timeout: u64) -> u64 {
    if now + timeout > u64::MAX {
        u64::MAX
    } else {
        (now + timeout) as u64
    }
}

impl SessionView {
    /// A closing session knows when it gives up, and no more bytes of a
    /// chunk have been written than the chunk has.
    pub open spec fn wf(self) -> bool {
        &&& self.state == State::Closing ==> self.deadline is Some
        &&& queue_wf(self.out, self.sent)
    }

    /// The bytes that are still to be written, in their order.
    pub open spec fn pending(self) -> Seq<u8> {
        pending(self.out, self.sent)
    }

    /// Moves to the end. The application is notified if the peer has said
    /// why it closes.
    pub open spec fn shut(self) -> (SessionView, Effect) {
        (
            SessionView { state: State::Closed, deadline: None, partial: None, ..self },
            match self.close_received {
                Some((code, reason)) => Effect::Notify(code, reason),
                None => Effect::Nothing,
            },
        )
    }

    /// Starts a close at `now` with `frame` as the close frame to send.
    pub open spec fn start_closing(self, now: u64, frame: FrameView) -> (SessionView, Effect) {
        (
            SessionView {
                state: State::Closing,
                deadline: Some(deadline_after(now, self.timeout)),
                partial: None,
                ..self
            },
            Effect::Send(frame),
        )
    }

    /// The opening exchange succeeded.
    pub open spec fn opened(self) -> SessionView {
        if self.state == State::Connecting {
            SessionView { state: State::Open, ..self }
        } else {
            self
        }
    }

    /// A server's handler has answered the opening request with `response`.
    /// The response is the next output; and a connecting session opens if
    /// the status is 101.
    pub open spec fn on_answer(self, response: ResponseView) -> SessionView {
        let queued = SessionView { out: self.out.push(format_response(response)), ..self };
        if response.status == 101 {
            queued.opened()
        } else {
            queued
        }
    }

    /// A frame arrived at `now`. An open session answers a ping with a pong
    /// of the same payload, takes note of a pong, starts closing on a close
    /// frame and echoes its code, and hands data frames to the assembler. A
    /// closing session that still waits for the peer's close frame ends with
    /// it, and passes over everything else.
    pub open spec fn on_frame(self, f: FrameView, now: u64) -> (SessionView, Effect) {
        match self.state {
            State::Open => if f.opcode == OpCode::Ping {
                (self, Effect::Send(plain_frame(true, OpCode::Pong, f.payload)))
            } else if f.opcode == OpCode::Pong {
                (SessionView { last_pong: Some(now), ..self }, Effect::Nothing)
            } else if f.opcode == OpCode::Close {
                match close_of(f.payload) {
                    Some((code, reason)) => (SessionView {
                        close_received: Some((code, reason)),
                        ..self
                    }).start_closing(now, close_frame(code, Seq::empty())),
                    None => (self, Effect::Fail(Kind::ProtocolViolation)),
                }
            } else {
                match assemble_step(self.partial, f, self.max_message) {
                    Step::Pending(p) => (SessionView { partial: p, ..self }, Effect::Nothing),
                    Step::Done(m) => (SessionView { partial: None, ..self }, Effect::Deliver(m)),
                    Step::Violation => (
                        SessionView { partial: None, ..self },
                        Effect::Fail(Kind::ProtocolViolation),
                    ),
                    Step::TooBig => (
                        SessionView { partial: None, ..self },
                        Effect::Fail(Kind::CapacityExceeded),
                    ),
                }
            },
            State::Closing => if f.opcode == OpCode::Close && self.close_received is None {
                match close_of(f.payload) {
                    Some((code, reason)) => (SessionView {
                        close_received: Some((code, reason)),
                        ..self
                    }).shut(),
                    None => (self, Effect::Fail(Kind::ProtocolViolation)),
                }
            } else {
                (self, Effect::Nothing)
            },
            _ => (self, Effect::Nothing),
        }
    }

    /// The application or the engine asks to close with `code` and `reason`.
    /// An open session sends the close frame and waits; a session that is
    /// still connecting ends at once.
    pub open spec fn on_close(self, code: CloseCode, reason: Seq<u8>, now: u64) -> (
        SessionView,
        Effect,
    ) {
        match self.state {
            State::Open => self.start_closing(now, close_frame(code, reason)),
            State::Connecting => self.shut(),
            _ => (self, Effect::Nothing),
        }
    }

    /// An error of kind `kind` was met at `now`, in what the peer sent or in
    /// a hook of the handler. It closes an open session with a close code
    /// that may travel and the description of its kind, and ends a session
    /// in any other state. A fault of the socket itself is no such error:
    /// with it the socket is gone.
    pub open spec fn on_error(self, kind: Kind, now: u64) -> (SessionView, Effect) {
        match self.state {
            State::Closed => (self, Effect::Nothing),
            State::Open => self.start_closing(
                now,
                close_frame(sent_code_of(kind), ascii(reason_text(kind))),
            ),
            _ => self.shut(),
        }
    }

    /// Time has moved to `now`. A closing session whose deadline has come
    /// ends, whether or not the close has completed.
    pub open spec fn on_tick(self, now: u64) -> (SessionView, Effect) {
        if self.state == State::Closing && (self.deadline matches Some(d) && d <= now) {
            self.shut()
        } else {
            (self, Effect::Nothing)
        }
    }

    /// All output has been written. A closing session that has the peer's
    /// close frame has now answered it, and ends.
    pub open spec fn on_flushed(self) -> (SessionView, Effect) {
        if self.state == State::Closing && self.close_received is Some && self.out.len() == 0 {
            self.shut()
        } else {
            (self, Effect::Nothing)
        }
    }

    /// The socket is gone.
    pub open spec fn on_disconnected(self) -> (SessionView, Effect) {
        if self.state == State::Closed {
            (self, Effect::Nothing)
        } else {
            self.shut()
        }
    }

    /// The frame that carries `m`, for an open session; no other session
    /// sends data.
    pub open spec fn frame_for(self, m: MessageView) -> Option<FrameView> {
        if self.state == State::Open {
            Some(plain_frame(true, m.opcode(), m.bytes()))
        } else {
            None
        }
    }

    /// Whether `f` is put on the output queue: data frames only while the
    /// session is open, control frames until it has ended.
    pub open spec fn takes(self, f: FrameView) -> bool {
        if f.opcode.is_control_spec() {
            self.state == State::Open || self.state == State::Closing
        } else {
            self.state == State::Open
        }
    }

    /// Puts `f` on the output queue as the role asks: masked with `key` from
    /// a client, unmasked from a server.
    pub open spec fn enqueue(self, f: FrameView, key: [u8; 4]) -> SessionView {
        if self.takes(f) {
            SessionView {
                out: self.out.push(
                    encode_frame(FrameView { masked: self.role == Role::Client, ..f }, key),
                ),
                ..self
            }
        } else {
            self
        }
    }
}

/// An event in the life of a session.
pub enum Event {
    Opened,
    Frame(FrameView, u64),
    Close(CloseCode, Seq<u8>, u64),
    Error(Kind, u64),
    Tick(u64),
    Flushed,
    Disconnected,
    Enqueue(FrameView, [u8; 4]),
    Raw(Seq<u8>),
    Written(nat),
}

/// The session after `n` more bytes of its oldest chunk of output have been
/// written.
pub open spec fn written(s: SessionView, n: nat) -> SessionView {
    SessionView { out: advanced(s.out, s.sent, n).0, sent: advanced(s.out, s.sent, n).1, ..s }
}

/// What an event does to a session.
pub open spec fn step(s: SessionView, e: Event) -> (SessionView, Effect) {
    match e {
        Event::Opened => (s.opened(), Effect::Nothing),
        Event::Frame(f, now) => s.on_frame(f, now),
        Event::Close(code, reason, now) => s.on_close(code, reason, now),
        Event::Error(kind, now) => s.on_error(kind, now),
        Event::Tick(now) => s.on_tick(now),
        Event::Flushed => s.on_flushed(),
        Event::Disconnected => s.on_disconnected(),
        Event::Enqueue(f, key) => (s.enqueue(f, key), Effect::Nothing),
        Event::Raw(bytes) => (SessionView { out: s.out.push(bytes), ..s }, Effect::Nothing),
        Event::Written(n) => (written(s, n), Effect::Nothing),
    }
}

/// The session after a run of events.
pub open spec fn run(s: SessionView, events: Seq<Event>) -> SessionView
    decreases events.len(),
{
    if events.len() == 0 {
        s
    } else {
        run(step(s, events[0]).0, events.drop_first())
    }
}

/// The number of close notifications that a run of events asks for.
pub open spec fn notifications(s: SessionView, events: Seq<Event>) -> nat
    decreases events.len(),
{
    if events.len() == 0 {
        0
    } else {
        let (next, effect) = step(s, events[0]);
        (if effect is Notify { 1nat } else { 0nat }) + notifications(next, events.drop_first())
    }
}

/// A step keeps a session well formed.
pub proof fn lemma_step_wf(s: SessionView, e: Event)
    requires
        s.wf(),
    ensures
        step(s, e).0.wf(),
{
    match e {
        Event::Enqueue(f, key) => {
            lemma_push_appends(
                s.out,
                s.sent,
                encode_frame(FrameView { masked: s.role == Role::Client, ..f }, key),
            );
        },
        Event::Raw(bytes) => {
            lemma_push_appends(s.out, s.sent, bytes);
        },
        Event::Written(n) => {
            if s.out.len() > 0 && s.sent + n <= s.out[0].len() {
                lemma_advance_consumes(s.out, s.sent, n);
            }
        },
        _ => {},
    }
}

/// The bytes that are written are the first of those that were to be
/// written, and the rest stays to be written as it was.
pub proof fn lemma_written_consumes(s: SessionView, n: nat)
    requires
        s.wf(),
        s.out.len() > 0,
        s.sent + n <= s.out[0].len(),
    ensures
        written(s, n).pending() == s.pending().skip(n as int),
        s.pending().subrange(0, n as int) == s.out[0].subrange(s.sent as int, (s.sent + n) as int),
{
    lemma_advance_consumes(s.out, s.sent, n);
}

/// What is put on the output queue is written after all that was to be
/// written before it.
pub proof fn lemma_enqueue_appends(s: SessionView, f: FrameView, key: [u8; 4])
    requires
        s.wf(),
        s.takes(f),
    ensures
        s.enqueue(f, key).pending() == s.pending() + encode_frame(
            FrameView { masked: s.role == Role::Client, ..f },
            key,
        ),
{
    lemma_push_appends(
        s.out,
        s.sent,
        encode_frame(FrameView { masked: s.role == Role::Client, ..f }, key),
    );
}

/// The end is the end: no event moves a closed session, asks the
/// application for anything or sends anything.
pub proof fn lemma_closed_is_terminal(s: SessionView, e: Event)
    requires
        s.state == State::Closed,
    ensures
        step(s, e).0.state == State::Closed,
        step(s, e).0.out == (match e {
            Event::Written(n) => written(s, n).out,
            Event::Raw(bytes) => s.out.push(bytes),
            _ => s.out,
        }),
        step(s, e).1 is Nothing,
{
}

/// A close notification is asked for only on the step that ends the
/// session, and carries what the peer's close frame said.
pub proof fn lemma_notify_ends(s: SessionView, e: Event)
    requires
        step(s, e).1 is Notify,
    ensures
        s.state != State::Closed,
        step(s, e).0.state == State::Closed,
        step(s, e).0.close_received matches Some((code, reason)) && step(s, e).1
            == Effect::Notify(code, reason),
{
}

proof fn lemma_closed_run_is_silent(s: SessionView, events: Seq<Event>)
    requires
        s.state == State::Closed,
    ensures
        notifications(s, events) == 0,
        run(s, events).state == State::Closed,
    decreases events.len(),
{
    if events.len() > 0 {
        lemma_closed_is_terminal(s, events[0]);
        lemma_closed_run_is_silent(step(s, events[0]).0, events.drop_first());
    }
}

/// Whatever happens to a session, the application is notified of the close
/// at most once.
pub proof fn lemma_notified_at_most_once(s: SessionView, events: Seq<Event>)
    ensures
        notifications(s, events) <= 1,
    decreases events.len(),
{
    if events.len() > 0 {
        let (next, effect) = step(s, events[0]);
        if effect is Notify {
            lemma_notify_ends(s, events[0]);
            lemma_closed_run_is_silent(next, events.drop_first());
        } else {
            lemma_notified_at_most_once(next, events.drop_first());
        }
    }
}

/// How far a state is along the life of a connection.
pub open spec fn rank(state: State) -> nat {
    match state {
        State::Connecting => 0,
        State::Open => 1,
        State::Closing => 2,
        State::Closed => 3,
    }
}

/// A connection only moves forward in its life: no event takes it back to
/// an earlier state, and none changes its role or its bounds.
pub proof fn lemma_step_advances(s: SessionView, e: Event)
    ensures
        rank(s.state) <= rank(step(s, e).0.state),
        step(s, e).0.role == s.role,
        step(s, e).0.timeout == s.timeout,
        step(s, e).0.max_message == s.max_message,
{
}

/// Whether an event is one that comes with input from the peer or a command
/// of the application, and not with the passing of time or with the socket
/// taking output or going away.
pub open spec fn is_progress(e: Event) -> bool {
    !(e is Tick || e is Flushed || e is Disconnected || e is Written)
}

/// Whether every event of a run is one of progress.
pub open spec fn all_progress(events: Seq<Event>) -> bool {
    forall|i: int| 0 <= i < events.len() ==> is_progress(#[trigger] events[i])
}

/// Whether a session can come from `a` to `b` by events of progress: by
/// taking input and commands, without any output being written.
pub open spec fn reachable(a: SessionView, b: SessionView) -> bool {
    exists|events: Seq<Event>| all_progress(events) && b == #[trigger] run(a, events)
}

proof fn lemma_run_push(s: SessionView, events: Seq<Event>, e: Event)
    ensures
        run(s, events.push(e)) == step(run(s, events), e).0,
    decreases events.len(),
{
    if events.len() == 0 {
        assert(events.push(e).drop_first() =~= Seq::<Event>::empty());
        assert(run(step(s, e).0, Seq::<Event>::empty()) == step(s, e).0);
    } else {
        assert(events.push(e).drop_first() =~= events.drop_first().push(e));
        lemma_run_push(step(s, events[0]).0, events.drop_first(), e);
    }
}

/// Every session can stay where it is.
pub proof fn lemma_reachable_here(a: SessionView)
    ensures
        reachable(a, a),
{
    assert(all_progress(Seq::<Event>::empty()));
    assert(a == run(a, Seq::<Event>::empty()));
}

/// One more event of progress leads to one more session that can be come
/// to.
pub proof fn lemma_reachable_step(a: SessionView, b: SessionView, e: Event)
    requires
        reachable(a, b),
        is_progress(e),
    ensures
        reachable(a, step(b, e).0),
{
    let events = choose|events: Seq<Event>| all_progress(events) && b == #[trigger] run(a, events);
    lemma_run_push(a, events, e);
    assert(all_progress(events.push(e)));
    assert(step(b, e).0 == run(a, events.push(e)));
}

proof fn lemma_run_concat(s: SessionView, first: Seq<Event>, second: Seq<Event>)
    ensures
        run(s, first + second) == run(run(s, first), second),
    decreases first.len(),
{
    if first.len() == 0 {
        assert(first + second =~= second);
    } else {
        assert((first + second).drop_first() =~= first.drop_first() + second);
        lemma_run_concat(step(s, first[0]).0, first.drop_first(), second);
    }
}

/// What can be come to from where one has come to, can be come to.
pub proof fn lemma_reachable_chain(a: SessionView, b: SessionView, c: SessionView)
    requires
        reachable(a, b),
        reachable(b, c),
    ensures
        reachable(a, c),
{
    let first = choose|events: Seq<Event>| all_progress(events) && b == #[trigger] run(a, events);
    let second = choose|events: Seq<Event>| all_progress(events) && c == #[trigger] run(b, events);
    lemma_run_concat(a, first, second);
    assert(all_progress(first + second));
    assert(c == run(a, first + second));
}

proof fn lemma_run_advances(s: SessionView, events: Seq<Event>)
    ensures
        rank(s.state) <= rank(run(s, events).state),
        run(s, events).role == s.role,
        run(s, events).timeout == s.timeout,
        run(s, events).max_message == s.max_message,
        s.wf() ==> run(s, events).wf(),
    decreases events.len(),
{
    if events.len() > 0 {
        lemma_step_advances(s, events[0]);
        if s.wf() {
            lemma_step_wf(s, events[0]);
        }
        lemma_run_advances(step(s, events[0]).0, events.drop_first());
    }
}

/// An event of progress takes nothing off the output queue and changes
/// nothing in it: what was queued stays queued, in its order.
pub proof fn lemma_step_keeps_output(s: SessionView, e: Event)
    requires
        is_progress(e),
    ensures
        starts_with(step(s, e).0.out, s.out),
        step(s, e).0.sent == s.sent,
{
    let next = step(s, e).0.out;
    assert(next.subrange(0, s.out.len() as int) =~= s.out);
}

proof fn lemma_run_keeps_output(s: SessionView, events: Seq<Event>)
    requires
        all_progress(events),
    ensures
        starts_with(run(s, events).out, s.out),
        run(s, events).sent == s.sent,
    decreases events.len(),
{
    if events.len() == 0 {
        assert(s.out.subrange(0, s.out.len() as int) =~= s.out);
    } else {
        let next = step(s, events[0]).0;
        let rest = events.drop_first();
        lemma_step_keeps_output(s, events[0]);
        assert(all_progress(rest)) by {
            assert forall|i: int| 0 <= i < rest.len() implies is_progress(#[trigger] rest[i]) by {
                assert(rest[i] == events[i + 1]);
            }
        }
        lemma_run_keeps_output(next, rest);
        let last = run(s, events).out;
        assert(last.subrange(0, s.out.len() as int) =~= s.out) by {
            assert(last.subrange(0, next.out.len() as int) == next.out);
            assert(next.out.subrange(0, s.out.len() as int) == s.out);
        }
    }
}

/// Wherever a session comes to by events of progress, it has not gone back
/// in its life, it has kept its role and its bounds, it is well formed if it
/// was, and what was on its output queue is still there, in its order and
/// before anything new.
pub proof fn lemma_reachable_advances(a: SessionView, b: SessionView)
    requires
        reachable(a, b),
    ensures
        rank(a.state) <= rank(b.state),
        b.role == a.role,
        b.timeout == a.timeout,
        b.max_message == a.max_message,
        a.wf() ==> b.wf(),
        starts_with(b.out, a.out),
        b.sent == a.sent,
{
    let events = choose|events: Seq<Event>| all_progress(events) && b == #[trigger] run(a, events);
    lemma_run_advances(a, events);
    lemma_run_keeps_output(a, events);
}

/// Whatever a session takes in, it writes what it was to write before, in
/// the same order, and what it has queued since after it.
pub proof fn lemma_reachable_output(a: SessionView, b: SessionView)
    requires
        a.wf(),
        reachable(a, b),
    ensures
        b.pending() == a.pending() + joined(b.out.skip(a.out.len() as int)),
{
    lemma_reachable_advances(a, b);
    lemma_queue_grows(a.out, b.out, a.sent);
}

/// Whatever fails on an open connection, in what the peer sent or in a hook
/// of the handler, the session starts to close and owes the peer a close
/// frame that carries a code that may travel.
pub proof fn lemma_error_closes_with_code(s: SessionView, kind: Kind, now: u64)
    requires
        s.state == State::Open,
    ensures
        step(s, Event::Error(kind, now)).0.state == State::Closing,
        step(s, Event::Error(kind, now)).1 matches Effect::Send(f) && f.opcode == OpCode::Close
            && f.is_valid() && f.payload.len() >= 2 && 1000 <= f.payload[0] * 256 + f.payload[1]
            <= 4999,
{
    lemma_sent_code_may_travel(kind);
    crate::close::lemma_close_payload_may_travel(sent_code_of(kind), ascii(reason_text(kind)));
    let n = crate::protocol::close_code_number(sent_code_of(kind));
    let payload = crate::close::close_payload(sent_code_of(kind), ascii(reason_text(kind)));
    assert(payload[0] * 256 + payload[1] == n);
}

/// A closing session does not outlive its deadline: the first tick at or
/// after the deadline ends it, whether or not the peer has answered.
pub proof fn lemma_close_times_out(s: SessionView, now: u64)
    requires
        s.wf(),
        s.state == State::Closing,
        s.deadline.unwrap() <= now,
    ensures
        step(s, Event::Tick(now)).0.state == State::Closed,
{
}

/// A session that starts to close at `now` has ended after the tick at
/// `now` plus the timeout, whatever happened in between.
pub proof fn lemma_closing_ends_by_deadline(s: SessionView, events: Seq<Event>, now: u64)
    requires
        s.wf(),
        s.state == State::Closing,
        s.deadline.unwrap() <= now,
    ensures
        step(run(s, events), Event::Tick(now)).0.state == State::Closed,
    decreases events.len(),
{
    if events.len() > 0 {
        let next = step(s, events[0]).0;
        lemma_step_wf(s, events[0]);
        if next.state == State::Closed {
            lemma_closed_run_is_silent(next, events.drop_first());
            lemma_closed_is_terminal(run(next, events.drop_first()), Event::Tick(now));
        } else {
            assert(next.state == State::Closing);
            assert(next.deadline == s.deadline);
            lemma_closing_ends_by_deadline(next, events.drop_first(), now);
        }
    }
}

/// When the peer closes an open connection, the session starts closing and
/// owes the peer a close frame with the same code; when that has been
/// written, the session ends and owes the application the notification,
/// with the code and the reason that the peer gave.
pub proof fn lemma_peer_close_round_trip(
    s: SessionView,
    code: CloseCode,
    reason: Seq<char>,
    key: [u8; 4],
    now: u64,
)
    requires
        s.state == State::Open,
        s.out.len() == 0,
        s.sent == 0,
        code.wf(),
        code.is_sendable_spec(),
        vstd::utf8::encode_utf8(reason).len() <= crate::close::MAX_REASON,
    ensures
        ({
            let arrived = step(s, Event::Frame(close_frame(code, vstd::utf8::encode_utf8(reason)), now));
            let echo = close_frame(code, Seq::empty());
            let queued = step(arrived.0, Event::Enqueue(echo, key)).0;
            let done = step(
                step(queued, Event::Written(queued.out[0].len())).0,
                Event::Flushed,
            );
            &&& arrived.0.state == State::Closing
            &&& arrived.1 == Effect::Send(echo)
            &&& queued.out.len() == 1
            &&& done.0.state == State::Closed
            &&& done.1 == Effect::Notify(code, reason)
        }),
{
    crate::close::lemma_close_round_trip(code, reason);
    let arrived = step(s, Event::Frame(close_frame(code, vstd::utf8::encode_utf8(reason)), now));
    let echo = close_frame(code, Seq::empty());
    let queued = step(arrived.0, Event::Enqueue(echo, key)).0;
    assert(queued.out.drop_first().len() == 0);
}

/// Once a session is closing or has ended, no data frame is put on its
/// output queue any more.
pub proof fn lemma_no_data_after_close(s: SessionView, f: FrameView, key: [u8; 4])
    requires
        s.state == State::Closing || s.state == State::Closed,
        !f.opcode.is_control_spec(),
    ensures
        s.enqueue(f, key) == s,
{
}

/// What the engine is asked to do after a step.
#[derive(Debug, PartialEq, Eq)]
pub enum Action {
    /// Hand the message to the application.
    Deliver(Message),
    /// Send the frame to the peer.
    Send(Frame),
    /// Tell the application that the connection has closed, with the code
    /// and reason that the peer gave.
    Notify(CloseCode, String),
}

/// The effect that an action stands for.
pub open spec fn effect_of(a: Option<Action>) -> Effect {
    match a {
        None => Effect::Nothing,
        Some(Action::Deliver(m)) => Effect::Deliver(m@),
        Some(Action::Send(f)) => Effect::Send(f@),
        Some(Action::Notify(code, reason)) => Effect::Notify(code, reason@),
    }
}

/// Whether what a step returned is the effect `e`.
pub open spec fn outcome_agrees(r: Result<Option<Action>, Error>, e: Effect) -> bool {
    match e {
        Effect::Fail(kind) => fails_with(r, kind),
        _ => r matches Ok(a) && effect_of(a) == e,
    }
}

impl Settings {
    /// Frames and messages of up to sixteen mebibytes, an opening exchange
    /// of up to eight kibibytes, ten seconds for a close, no extension, and
    /// silence about a reset by the peer as Linux numbers it.
    pub fn new() -> (r: Settings)
        ensures
            r == (Settings {
                max_payload: 0x100_0000,
                max_message: 0x100_0000,
                max_handshake: 0x2000,
                close_timeout: 10_000,
                allow_rsv1: false,
                allow_rsv2: false,
                allow_rsv3: false,
                ignored_os_error: Some(104i32),
            }),
    {
        Settings {
            max_payload: 0x100_0000,
            max_message: 0x100_0000,
            max_handshake: 0x2000,
            close_timeout: 10_000,
            allow_rsv1: false,
            allow_rsv2: false,
            allow_rsv3: false,
            ignored_os_error: Some(104),
        }
    }

    /// What the decoder of an end in `role` accepts: a server expects
    /// masked frames, a client unmasked ones.
    pub open spec fn codec_for(self, role: Role) -> CodecConfig {
        CodecConfig {
            max_payload: self.max_payload,
            allow_rsv1: self.allow_rsv1,
            allow_rsv2: self.allow_rsv2,
            allow_rsv3: self.allow_rsv3,
            expect_masked: role == Role::Server,
        }
    }

    /// What the decoder of an end in `role` accepts.
    pub fn codec(&self, role: Role) -> (r: CodecConfig)
        ensures
            r == self.codec_for(role),
    {
        CodecConfig {
            max_payload: self.max_payload,
            allow_rsv1: self.allow_rsv1,
            allow_rsv2: self.allow_rsv2,
            allow_rsv3: self.allow_rsv3,
            expect_masked: role == Role::Server,
        }
    }
}

/// The state of one connection, apart from its socket and its handler.
pub struct Session {
    role: Role,
    state: State,
    timeout: u64,
    assembler: MessageAssembler,
    out: Outbox,
    close_received: Option<(CloseCode, String)>,
    deadline: Option<u64>,
    last_pong: Option<u64>,
}

impl View for Session {
    type V = SessionView;

    closed spec fn view(&self) -> SessionView {
        SessionView {
            role: self.role,
            state: self.state,
            timeout: self.timeout,
            max_message: self.assembler.max(),
            partial: self.assembler.partial(),
            out: self.out.chunks(),
            sent: self.out.sent(),
            close_received: match self.close_received {
                Some((code, reason)) => Some((code, reason@)),
                None => None,
            },
            deadline: self.deadline,
            last_pong: self.last_pong,
        }
    }
}

impl Session {
    /// A session that is connecting.
    pub fn new(role: Role, settings: &Settings) -> (r: Session)
        ensures
            r@ == (SessionView {
                role,
                state: State::Connecting,
                timeout: settings.close_timeout,
                max_message: settings.max_message as nat,
                partial: None,
                out: Seq::empty(),
                sent: 0,
                close_received: None,
                deadline: None,
                last_pong: None,
            }),
    {
        let r = Session {
            role,
            state: State::Connecting,
            timeout: settings.close_timeout,
            assembler: MessageAssembler::new(settings.max_message),
            out: Outbox::new(),
            close_received: None,
            deadline: None,
            last_pong: None,
        };
        r
    }

    /// Where the session stands in its life.
    pub fn state(&self) -> (r: State)
        ensures
            r == self@.state,
    {
        self.state
    }

    /// Which end of the connection the session is.
    pub fn role(&self) -> (r: Role)
        ensures
            r == self@.role,
    {
        self.role
    }

    /// Whether the session has ended.
    pub fn is_closed(&self) -> (r: bool)
        ensures
            r == (self@.state == State::Closed),
    {
        self.state == State::Closed
    }

    /// When the close that is under way is given up.
    pub fn deadline(&self) -> (r: Option<u64>)
        ensures
            r == self@.deadline,
    {
        self.deadline
    }

    /// When the peer was last heard to answer a ping.
    pub fn last_pong(&self) -> (r: Option<u64>)
        ensures
            r == self@.last_pong,
    {
        self.last_pong
    }

    fn shut(&mut self) -> (r: Option<Action>)
        ensures
            (final(self)@, effect_of(r)) == old(self)@.shut(),
    {
        self.state = State::Closed;
        self.deadline = None;
        self.assembler.reset();
        match &self.close_received {
            Some((code, reason)) => Some(Action::Notify(*code, reason.clone())),
            None => None,
        }
    }

    fn start_closing(&mut self, now: u64, frame: Frame) -> (r: Option<Action>)
        ensures
            (final(self)@, effect_of(r)) == old(self)@.start_closing(now, frame@),
    {
        let deadline: u64 = if now > u64::MAX - self.timeout {
            u64::MAX
        } else {
            now + self.timeout
        };
        self.deadline = Some(deadline);
        self.state = State::Closing;
        self.assembler.reset();
        Some(Action::Send(frame))
    }

    /// The opening exchange succeeded.
    pub fn opened(&mut self)
        ensures
            final(self)@ == old(self)@.opened(),
    {
        if self.state == State::Connecting {
            self.state = State::Open;
        }
    }

    /// Takes what a server's handler made of the opening request. A
    /// refusal leaves the session as it is and is handed back. A response is
    /// the next output; with status 101 a connecting session opens and the
    /// response is handed back, and with any other status the handshake has
    /// failed.
    pub fn answered(&mut self, answer: Result<Response, Error>) -> (r: Result<Response, Error>)
        ensures
            match answer {
                Err(e) => final(self)@ == old(self)@ && r == Err::<Response, Error>(e),
                Ok(response) => final(self)@ == old(self)@.on_answer(response@) && (if response@.status
                    == 101 {
                    r == Ok::<Response, Error>(response)
                } else {
                    fails_with(r, Kind::HandshakeFailure)
                }),
            },
    {
        match answer {
            Err(e) => Err(e),
            Ok(response) => {
                self.enqueue_bytes(response.format());
                if response.status() == 101 {
                    self.opened();
                    Ok(response)
                } else {
                    Err(Error::of(Kind::HandshakeFailure))
                }
            },
        }
    }

    /// Takes what a client's handler made of the answer `response` to the
    /// request `request`. A refusal leaves the session as it is and is
    /// handed back. Else the client checks the response against its
    /// request: a connecting session opens where the response is one to
    /// take, and the handshake has failed where it is not.
    pub fn confirmed(
        &mut self,
        verdict: Result<(), Error>,
        response: &Response,
        request: &Request,
    ) -> (r: Result<(), Error>)
        ensures
            match verdict {
                Err(e) => final(self)@ == old(self)@ && r == Err::<(), Error>(e),
                Ok(_) => if response_acceptable(request@, response@) {
                    final(self)@ == old(self)@.opened() && r is Ok
                } else {
                    final(self)@ == old(self)@ && fails_with(r, Kind::HandshakeFailure)
                },
            },
    {
        match verdict {
            Err(e) => Err(e),
            Ok(()) => match response.check(request) {
                Ok(()) => {
                    self.opened();
                    Ok(())
                },
                Err(e) => Err(e),
            },
        }
    }

    /// Takes a frame that arrived at `now`, and says what is owed in return:
    /// a message for the application, a frame for the peer, the close
    /// notification, or nothing.
    pub fn on_frame(&mut self, frame: Frame, now: u64) -> (r: Result<Option<Action>, Error>)
        ensures
            outcome_agrees(r, old(self)@.on_frame(frame@, now).1),
            final(self)@ == old(self)@.on_frame(frame@, now).0,
    {
        match self.state {
            State::Open => {
                let control: bool = frame.is_control();
                match frame.opcode() {
                    OpCode::Ping => Ok(
                        Some(Action::Send(Frame::control(OpCode::Pong, frame.into_data()))),
                    ),
                    OpCode::Pong => {
                        self.last_pong = Some(now);
                        Ok(None)
                    },
                    OpCode::Close => match read_close(frame.payload().as_slice()) {
                        Ok((code, reason)) => {
                            self.close_received = Some((code, reason));
                            let empty: Vec<u8> = Vec::new();
                            let echo = make_close(code, empty.as_slice());
                            Ok(self.start_closing(now, echo))
                        },
                        Err(e) => Err(e),
                    },
                    _ => match self.assembler.push(frame) {
                        Ok(Some(m)) => Ok(Some(Action::Deliver(m))),
                        Ok(None) => Ok(None),
                        Err(e) => Err(e),
                    },
                }
            },
            State::Closing => {
                if frame.opcode() == OpCode::Close && self.close_received.is_none() {
                    match read_close(frame.payload().as_slice()) {
                        Ok((code, reason)) => {
                            self.close_received = Some((code, reason));
                            Ok(self.shut())
                        },
                        Err(e) => Err(e),
                    }
                } else {
                    Ok(None)
                }
            },
            _ => Ok(None),
        }
    }

    /// Starts to close with `code` and `reason`.
    pub fn on_close(&mut self, code: CloseCode, reason: &[u8], now: u64) -> (r: Option<Action>)
        ensures
            (final(self)@, effect_of(r)) == old(self)@.on_close(code, reason@, now),
    {
        match self.state {
            State::Open => {
                let frame = make_close(code, reason);
                self.start_closing(now, frame)
            },
            State::Connecting => self.shut(),
            _ => None,
        }
    }

    /// Takes note of an error of kind `kind` that was met at `now`.
    pub fn on_error(&mut self, kind: Kind, now: u64) -> (r: Option<Action>)
        ensures
            (final(self)@, effect_of(r)) == old(self)@.on_error(kind, now),
    {
        match self.state {
            State::Closed => None,
            State::Open => {
                let frame = make_close(kind.sent_code(), kind.reason().as_bytes());
                self.start_closing(now, frame)
            },
            _ => self.shut(),
        }
    }

    /// Takes note that time has moved to `now`.
    pub fn on_tick(&mut self, now: u64) -> (r: Option<Action>)
        ensures
            (final(self)@, effect_of(r)) == old(self)@.on_tick(now),
    {
        let due: bool = match self.deadline {
            Some(d) => d <= now,
            None => false,
        };
        if self.state == State::Closing && due {
            self.shut()
        } else {
            None
        }
    }

    /// Takes note that all output has been written.
    pub fn on_flushed(&mut self) -> (r: Option<Action>)
        ensures
            (final(self)@, effect_of(r)) == old(self)@.on_flushed(),
    {
        if self.state == State::Closing && self.close_received.is_some() && self.out.is_empty() {
            self.shut()
        } else {
            None
        }
    }

    /// Takes note that the socket is gone.
    pub fn on_disconnected(&mut self) -> (r: Option<Action>)
        ensures
            (final(self)@, effect_of(r)) == old(self)@.on_disconnected(),
    {
        if self.state == State::Closed {
            None
        } else {
            self.shut()
        }
    }

    /// The frame that carries `msg`, if the session sends data.
    pub fn frame_for(&self, msg: Message) -> (r: Option<Frame>)
        ensures
            match self@.frame_for(msg@) {
                Some(f) => r matches Some(frame) && frame@ == f,
                None => r is None,
            },
    {
        if self.state == State::Open {
            let opcode = msg.opcode();
            Some(Frame::message(msg.into_data(), opcode, true))
        } else {
            None
        }
    }

    /// Puts `frame` on the output queue, masked with `key` where the
    /// session is a client. Data frames are dropped unless the session is
    /// open, and every frame once it has ended.
    pub fn enqueue(&mut self, frame: Frame, key: [u8; 4])
        ensures
            final(self)@ == old(self)@.enqueue(frame@, key),
    {
        let takes: bool = if frame.is_control() {
            self.state == State::Open || self.state == State::Closing
        } else {
            self.state == State::Open
        };
        if takes {
            let mut frame = frame;
            frame.set_masked(self.role == Role::Client);
            let bytes = encode(&frame, key);
            self.out.push(bytes);
        }
    }

    /// Puts bytes of the opening exchange on the output queue.
    pub fn enqueue_bytes(&mut self, bytes: Vec<u8>)
        ensures
            final(self)@ == step(old(self)@, Event::Raw(bytes@)).0,
    {
        self.out.push(bytes);
    }

    /// Whether output waits to be written.
    pub fn wants_write(&self) -> (r: bool)
        ensures
            r == (self@.out.len() > 0),
    {
        !self.out.is_empty()
    }

    /// The bytes of the oldest chunk that have not been written yet.
    pub fn next_output(&self) -> (r: Option<&[u8]>)
        ensures
            self@.out.len() > 0 ==> (r matches Some(rest) && rest@ == self@.out[0].skip(
                self@.sent as int,
            )),
            self@.out.len() == 0 ==> r is None,
    {
        self.out.next()
    }

    /// Takes note that `n` more bytes of the oldest chunk have been written.
    /// A number beyond the end of the chunk changes nothing.
    pub fn written(&mut self, n: usize)
        ensures
            final(self)@ == written(old(self)@, n as nat),
    {
        self.out.advance(n);
    }

    /// Every session in a running program has a well-formed output queue.
    pub fn check_queue(&self)
        ensures
            queue_wf(self@.out, self@.sent),
    {
        self.out.check_wf();
    }
}

} // verus!
