//! One connection: a session, the bytes that have arrived for it, and the
//! handler that the engine calls as the session asks.

use vstd::prelude::*;
use crate::bytes::append_bytes;
use crate::codec::{decode, decode_frame, lemma_decoded_is_accepted, Decoded};
use crate::handler::{is_ignorable, is_reset, Handler};
use crate::handshake::{
    format_request, parse_request, parse_response, Handshake, ParsedRequest, ParsedResponse,
    Request, RequestView, Response,
};
use crate::message::Message;
use crate::protocol::CloseCode;
use crate::result::{Error, Kind};
use crate::session::{
    effect_of, lemma_reachable_chain, lemma_reachable_here, lemma_reachable_step, rank, reachable,
    step, written, Action, Effect, Event, Role, Session, SessionView, Settings, State,
};
use crate::token::random_mask;

verus! {

/// How much is left to do for an action in a state: nothing for no action,
/// one step for a notification, and for a message or a frame the more the
/// earlier the connection is in its life.
pub open spec fn weight(pending: Option<Action>, state: State) -> nat {
    match pending {
        None => 0,
        Some(Action::Notify(_, _)) => 1,
        Some(_) => (5 - rank(state)) as nat,
    }
}

/// A connection and its handler.
pub struct Connection<H: Handler> {
    handler: H,
    session: Session,
    settings: Settings,
    input: Vec<u8>,
    request: Option<Request>,
    reports: Vec<Error>,
    peer_addr: Option<String>,
    local_addr: Option<String>,
}

impl<H: Handler> Connection<H> {
    /// The session of the connection.
    pub closed spec fn session(self) -> SessionView {
        self.session@
    }

    /// The bytes that have arrived and are not yet taken.
    pub closed spec fn input(self) -> Seq<u8> {
        self.input@
    }

    /// The bounds and choices of the connection.
    pub closed spec fn settings(self) -> Settings {
        self.settings
    }

    /// The handler of the connection.
    pub closed spec fn handler_value(self) -> H {
        self.handler
    }

    /// The errors that wait to be reported, oldest first.
    pub closed spec fn reports(self) -> Seq<Error> {
        self.reports@
    }

    /// Where the peer's end and this end of the connection are, if known.
    pub closed spec fn addresses(self) -> (Option<String>, Option<String>) {
        (self.peer_addr, self.local_addr)
    }

    /// The request that a client has sent and waits to have answered.
    pub closed spec fn awaited(self) -> Option<RequestView> {
        match self.request {
            Some(request) => Some(request@),
            None => None,
        }
    }

    /// What the decoder of this connection accepts.
    pub open spec fn codec(self) -> crate::codec::CodecConfig {
        self.settings().codec_for(self.session().role)
    }

    /// Whether `after` has the settings and the addresses of this
    /// connection.
    pub open spec fn kept(self, after: Self) -> bool {
        after.settings() == self.settings() && after.addresses() == self.addresses()
    }

    /// Whether `after` has, besides, the input of this connection and waits
    /// for the answer to the same request.
    pub open spec fn kept_input(self, after: Self) -> bool {
        self.kept(after) && after.input() == self.input() && after.awaited() == self.awaited()
    }

    /// Whether `after` has, besides, the same errors to report.
    pub open spec fn kept_reports(self, after: Self) -> bool {
        self.kept_input(after) && after.reports() == self.reports()
    }

    /// Whether `after` has, besides, the same handler: whether nothing but
    /// the session has changed.
    pub open spec fn kept_handler(self, after: Self) -> bool {
        self.kept_reports(after) && after.handler_value() == self.handler_value()
    }

    /// Whether `after` is this connection after a step of its session that
    /// no hook can fail: the session is what the step makes of it, nothing
    /// is added to the reports, and the handler is touched only where the
    /// step asks for the close notification.
    pub open spec fn moved_quietly(self, after: Self, outcome: (SessionView, Effect)) -> bool {
        &&& after.session() == outcome.0
        &&& self.kept_reports(after)
        &&& outcome.1 is Nothing ==> after.handler_value() == self.handler_value()
    }

    /// Whether `after` is this connection with `all` as its input and
    /// nothing else changed: the connection waits for more bytes.
    pub open spec fn waits(self, after: Self, all: Seq<u8>) -> bool {
        &&& self.kept(after)
        &&& after.session() == self.session()
        &&& after.input() == all
        &&& after.awaited() == self.awaited()
        &&& after.reports() == self.reports()
        &&& after.handler_value() == self.handler_value()
    }

    /// Whether `after` is this connection, still connecting, after input that
    /// is no opening exchange or too long for one: the input is dropped and
    /// the session has ended as an error of `kind` ends it.
    pub open spec fn refused(self, after: Self, kind: Kind, now: u64) -> bool {
        &&& self.kept(after)
        &&& after.session() == self.session().on_error(kind, now).0
        &&& after.input() == Seq::<u8>::empty()
        &&& after.awaited() == self.awaited()
    }

    /// Whether `after` is this connection, open or closing, after input that
    /// does not decode: the input is dropped, and the session has taken note
    /// of an error of `kind` and done what follows from it.
    pub open spec fn broken(self, after: Self, kind: Kind, now: u64) -> bool {
        &&& self.kept(after)
        &&& reachable(self.session().on_error(kind, now).0, after.session())
        &&& after.input() == Seq::<u8>::empty()
        &&& after.awaited() == self.awaited()
    }

    /// What a connecting connection makes of the input `all`. While the
    /// opening request (for a server) or the answer to it (for a client) is
    /// incomplete and within the bound, the connection waits. Input beyond
    /// the bound and input that is no request or response end the
    /// connection. Of a complete request or response the handler decides.
    pub open spec fn handshake_taken(self, after: Self, all: Seq<u8>, now: u64) -> bool {
        let limit = self.settings().max_handshake;
        match self.session().role {
            Role::Server => match parse_request(all) {
                ParsedRequest::Incomplete => if all.len() <= limit {
                    self.waits(after, all)
                } else {
                    self.refused(after, Kind::CapacityExceeded, now)
                },
                ParsedRequest::Malformed => self.refused(after, Kind::HandshakeFailure, now),
                ParsedRequest::Complete(_, _) => true,
            },
            Role::Client => match parse_response(all) {
                ParsedResponse::Incomplete => if all.len() <= limit {
                    self.waits(after, all)
                } else {
                    self.refused(after, Kind::CapacityExceeded, now)
                },
                ParsedResponse::Malformed => self.refused(after, Kind::HandshakeFailure, now),
                ParsedResponse::Complete(_, _) => true,
            },
        }
    }

    /// What an open or closing connection makes of the input `all`. While
    /// the input holds no whole frame, the connection waits. Input that
    /// breaks the protocol or declares a payload beyond the bound is dropped
    /// and closes the connection. Of a whole frame the handler's hooks
    /// decide.
    pub open spec fn frames_taken(self, after: Self, all: Seq<u8>, now: u64) -> bool {
        match decode_frame(all, self.codec()) {
            Decoded::Incomplete => self.waits(after, all),
            Decoded::Violation => self.broken(after, Kind::ProtocolViolation, now),
            Decoded::TooBig => self.broken(after, Kind::CapacityExceeded, now),
            Decoded::Complete(_, _) => true,
        }
    }

    /// Whether `after` is this connection after the bytes `data` have
    /// arrived at `now`. A connection that has ended drops them and stays as
    /// it is. Any other connection has them behind the input it had, and
    /// goes on with the opening exchange or with its frames; its session
    /// moves by events of progress only.
    pub open spec fn received(self, after: Self, data: Seq<u8>, now: u64) -> bool {
        &&& self.kept(after)
        &&& reachable(self.session(), after.session())
        &&& match self.session().state {
            State::Closed => self.waits(after, self.input()),
            State::Connecting => self.handshake_taken(after, self.input() + data, now),
            _ => self.frames_taken(after, self.input() + data, now),
        }
    }

    /// Whether `after` is this connection after a message was handed over to
    /// be sent, with the answer `taken`: whether the connection was open. A
    /// connection that is not open stays as it is.
    pub open spec fn sent(self, after: Self, taken: bool) -> bool {
        &&& taken == (self.session().state == State::Open)
        &&& self.kept_input(after)
        &&& reachable(self.session(), after.session())
        &&& !taken ==> self.waits(after, self.input())
    }

    /// Whether `after` is this connection after it was asked at `now` to
    /// close with `code` and `reason`: it is closing or has ended; and
    /// unless it was open, its session has moved as the request to close
    /// moves it, with no hook that can fail.
    pub open spec fn closed(self, after: Self, code: CloseCode, reason: Seq<u8>, now: u64) -> bool {
        &&& self.kept_input(after)
        &&& reachable(self.session(), after.session())
        &&& after.session().state == State::Closing || after.session().state == State::Closed
        &&& self.session().state != State::Open ==> self.moved_quietly(
            after,
            self.session().on_close(code, reason, now),
        )
    }

    /// Whether `after` is this connection after a request to shut down at
    /// `now`: the handler was told, and the connection was asked to close
    /// normally.
    pub open spec fn shut_down(self, after: Self, now: u64) -> bool {
        &&& self.kept_input(after)
        &&& reachable(self.session(), after.session())
        &&& after.session().state == State::Closing || after.session().state == State::Closed
        &&& self.session().state != State::Open ==> after.session() == self.session().on_close(
            CloseCode::Normal,
            Seq::empty(),
            now,
        ).0 && after.reports() == self.reports()
    }

    /// Whether `after` is this connection after a fault of its socket with
    /// the operating system's number `os_error`: the session has ended as
    /// with a socket that is gone; and where the settings pass the fault
    /// over, the handler is not told of an error and nothing is to be
    /// reported.
    pub open spec fn lost(self, after: Self, os_error: Option<i32>) -> bool {
        &&& after.session() == self.session().on_disconnected().0
        &&& self.kept_input(after)
        &&& (os_error is Some && os_error == self.settings().ignored_os_error)
            ==> self.moved_quietly(after, self.session().on_disconnected())
    }

    /// The opening state of a connection in `role`.
    pub open spec fn initial(role: Role, settings: Settings) -> SessionView {
        SessionView {
            role,
            state: State::Connecting,
            timeout: settings.close_timeout,
            max_message: settings.max_message as nat,
            partial: None,
            out: Seq::empty(),
            sent: 0,
            close_received: None,
            deadline: None,
            last_pong: None,
        }
    }

    /// The state in which a client starts that opens with `request`: it is
    /// connecting, and the request as it travels is its only output.
    pub open spec fn opening(settings: Settings, request: RequestView) -> SessionView {
        SessionView {
            out: seq![format_request(request)],
            ..Self::initial(Role::Client, settings)
        }
    }

    /// The server's end of a connection that a client has made.
    pub fn accept(handler: H, settings: Settings) -> (r: Self)
        ensures
            r.session() == Self::initial(Role::Server, settings),
            r.input() == Seq::<u8>::empty(),
            r.settings() == settings,
            r.handler_value() == handler,
            r.reports() == Seq::<Error>::empty(),
            r.addresses() == (None::<String>, None::<String>),
            r.awaited() is None,
    {
        Connection {
            handler,
            session: Session::new(Role::Server, &settings),
            settings,
            input: Vec::new(),
            request: None,
            reports: Vec::new(),
            peer_addr: None,
            local_addr: None,
        }
    }

    /// The client's end of a connection that opens with what the handler
    /// built: with a request, the connection that has the request as its
    /// first output and waits for the answer to it; with a refusal, no
    /// connection and the handler's error.
    pub fn with_request(handler: H, settings: Settings, built: Result<Request, Error>) -> (r:
        Result<Self, Error>)
        ensures
            built matches Ok(request) ==> (r matches Ok(c) && c.session() == Self::opening(
                settings,
                request@,
            ) && c.awaited() == Some(request@) && c.settings() == settings && c.input()
                == Seq::<u8>::empty() && c.handler_value() == handler && c.reports()
                == Seq::<Error>::empty() && c.addresses() == (None::<String>, None::<String>)),
            built matches Err(e) ==> (r matches Err(failed) && failed == e),
    {
        match built {
            Ok(request) => {
                let mut session = Session::new(Role::Client, &settings);
                session.enqueue_bytes(request.format());
                assert(session@.out =~= seq![format_request(request@)]);
                Ok(
                    Connection {
                        handler,
                        session,
                        settings,
                        input: Vec::new(),
                        request: Some(request),
                        reports: Vec::new(),
                        peer_addr: None,
                        local_addr: None,
                    },
                )
            },
            Err(e) => Err(e),
        }
    }

    /// The client's end of a connection to `url`: the handler builds the
    /// opening request, which is the first output. Where the handler
    /// refuses, there is no connection.
    pub fn connect(handler: H, settings: Settings, url: &url::Url) -> (r: Result<Self, Error>)
        ensures
            r matches Ok(c) ==> c.settings() == settings && c.input() == Seq::<u8>::empty()
                && c.reports() == Seq::<Error>::empty() && c.addresses() == (
                None::<String>,
                None::<String>,
            ) && (c.awaited() matches Some(request) && c.session() == Self::opening(
                settings,
                request,
            )),
    {
        let mut handler = handler;
        let built = handler.build_request(url);
        Connection::with_request(handler, settings, built)
    }

    /// Says where the two ends of the connection are, for the handler to
    /// see when the connection opens.
    pub fn set_addresses(&mut self, peer_addr: Option<String>, local_addr: Option<String>)
        ensures
            final(self).addresses() == (peer_addr, local_addr),
            final(self).session() == old(self).session(),
            final(self).input() == old(self).input(),
            final(self).awaited() == old(self).awaited(),
            final(self).settings() == old(self).settings(),
            final(self).handler_value() == old(self).handler_value(),
            final(self).reports() == old(self).reports(),
    {
        self.peer_addr = peer_addr;
        self.local_addr = local_addr;
    }

    /// Where the connection stands in its life.
    pub fn state(&self) -> (r: State)
        ensures
            r == self.session().state,
    {
        self.session.state()
    }

    /// Whether the connection has ended.
    pub fn is_closed(&self) -> (r: bool)
        ensures
            r == (self.session().state == State::Closed),
    {
        self.session.is_closed()
    }

    /// When the close that is under way is given up.
    pub fn deadline(&self) -> (r: Option<u64>)
        ensures
            r == self.session().deadline,
    {
        self.session.deadline()
    }

    /// When the peer was last heard to answer a ping.
    pub fn last_pong(&self) -> (r: Option<u64>)
        ensures
            r == self.session().last_pong,
    {
        self.session.last_pong()
    }

    /// The handler of the connection.
    pub fn handler(&self) -> (r: &H)
        ensures
            *r == self.handler_value(),
    {
        &self.handler
    }

    /// Whether output waits to be written.
    pub fn wants_write(&self) -> (r: bool)
        ensures
            r == (self.session().out.len() > 0),
    {
        self.session.wants_write()
    }

    /// The bytes of the oldest chunk of output that have not been written
    /// yet.
    pub fn next_output(&self) -> (r: Option<&[u8]>)
        ensures
            self.session().out.len() > 0 ==> (r matches Some(rest) && rest@
                == self.session().out[0].skip(self.session().sent as int)),
            self.session().out.len() == 0 ==> r is None,
    {
        self.session.next_output()
    }

    /// Hands over the errors that are to be reported, oldest first, and
    /// forgets them.
    pub fn take_reports(&mut self) -> (r: Vec<Error>)
        ensures
            r@ == old(self).reports(),
            final(self).reports() == Seq::<Error>::empty(),
            final(self).session() == old(self).session(),
            final(self).handler_value() == old(self).handler_value(),
            (*old(self)).kept_input(*final(self)),
    {
        let mut taken: Vec<Error> = Vec::new();
        core::mem::swap(&mut self.reports, &mut taken);
        taken
    }

    /// Tells the handler of an error, unless the settings pass it over, and
    /// keeps what the handler hands back to be reported.
    fn tell(&mut self, err: Error)
        ensures
            final(self).session() == old(self).session(),
            (*old(self)).kept_input(*final(self)),
            is_reset(err@, old(self).settings().ignored_os_error) ==> (*old(self)).kept_handler(
                *final(self),
            ),
    {
        if !is_ignorable(&err, self.settings.ignored_os_error) {
            match self.handler.on_error(err) {
                Some(e) => {
                    self.reports.push(e);
                },
                None => {},
            }
        }
    }

    /// Tells the handler of an error that was met in what the peer sent or
    /// in a hook, and the session, which says what is to be done about it.
    fn note_error(&mut self, err: Error, now: u64) -> (r: Option<Action>)
        ensures
            (final(self).session(), effect_of(r)) == old(self).session().on_error(err@.kind, now),
            (*old(self)).kept_input(*final(self)),
    {
        let kind: Kind = err.kind;
        self.tell(err);
        self.session.on_error(kind, now)
    }

    /// Does what the session asked for, and what follows from it: a message
    /// goes to the handler, a frame through the handler's hook onto the
    /// output queue, a notification to the handler; and where a hook fails,
    /// or a client has no random bytes for a masking key, the session is
    /// told and asked again.
    fn drive(&mut self, action: Option<Action>, now: u64)
        ensures
            reachable(old(self).session(), final(self).session()),
            (*old(self)).kept_input(*final(self)),
            action is None ==> (*old(self)).waits(*final(self), old(self).input()),
            action matches Some(Action::Notify(_, _)) ==> final(self).session() == old(
                self,
            ).session() && final(self).reports() == old(self).reports(),
    {
        let ghost start = self.session@;
        let ghost quiet = action is None || action matches Some(Action::Notify(_, _));
        proof {
            lemma_reachable_here(start);
        }
        let mut pending: Option<Action> = action;
        while pending.is_some()
            invariant
                reachable(start, self.session@),
                quiet ==> self.session@ == start && self.reports@ == old(self).reports@ && (pending
                    is None || pending matches Some(Action::Notify(_, _))),
                action is None ==> (*old(self)).waits(*self, old(self).input()),
                action is None ==> pending is None,
                (*old(self)).kept_input(*self),
            decreases weight(pending, self.session@.state),
        {
            let ghost before = self.session@;
            match pending {
                None => {
                    pending = None;
                },
                Some(Action::Deliver(msg)) => {
                    match self.handler.on_message(msg) {
                        Ok(()) => {
                            pending = None;
                        },
                        Err(e) => {
                            proof {
                                lemma_reachable_step(start, before, Event::Error(e@.kind, now));
                            }
                            pending = self.note_error(e, now);
                        },
                    }
                },
                Some(Action::Send(frame)) => {
                    match self.handler.on_send_frame(frame) {
                        Ok(Some(f)) => {
                            let key: Option<[u8; 4]> = match self.session.role() {
                                Role::Client => random_mask(),
                                Role::Server => Some([0, 0, 0, 0]),
                            };
                            match key {
                                Some(key) => {
                                    proof {
                                        lemma_reachable_step(
                                            start,
                                            before,
                                            Event::Enqueue(f@, key),
                                        );
                                    }
                                    self.session.enqueue(f, key);
                                    pending = None;
                                },
                                None => {
                                    proof {
                                        lemma_reachable_step(
                                            start,
                                            before,
                                            Event::Error(Kind::Internal, now),
                                        );
                                    }
                                    pending = self.note_error(Error::of(Kind::Internal), now);
                                },
                            }
                        },
                        Ok(None) => {
                            pending = None;
                        },
                        Err(e) => {
                            proof {
                                lemma_reachable_step(start, before, Event::Error(e@.kind, now));
                            }
                            pending = self.note_error(e, now);
                        },
                    }
                },
                Some(Action::Notify(code, reason)) => {
                    self.handler.on_close(code, reason.as_str());
                    pending = None;
                },
            }
        }
    }

    /// Takes note of an error that was met in what the peer sent or in a
    /// hook, and does what follows from it.
    fn fail(&mut self, err: Error, now: u64)
        ensures
            reachable(old(self).session(), final(self).session()),
            reachable(
                old(self).session().on_error(err@.kind, now).0,
                final(self).session(),
            ),
            old(self).session().state != State::Open ==> final(self).session() == old(
                self,
            ).session().on_error(err@.kind, now).0,
            (*old(self)).kept_input(*final(self)),
    {
        let ghost start = self.session@;
        proof {
            lemma_reachable_here(start);
            lemma_reachable_step(start, start, Event::Error(err@.kind, now));
        }
        let action = self.note_error(err, now);
        let ghost mid = self.session@;
        self.drive(action, now);
        proof {
            lemma_reachable_chain(start, mid, self.session@);
        }
    }

    /// Takes the first `used` bytes off the input.
    fn consume(&mut self, used: usize)
        requires
            used <= old(self).input().len(),
        ensures
            final(self).input() == old(self).input().subrange(
                used as int,
                old(self).input().len() as int,
            ),
            final(self).session() == old(self).session(),
            final(self).awaited() == old(self).awaited(),
            (*old(self)).kept(*final(self)),
    {
        let rest = self.input.split_off(used);
        self.input = rest;
    }

    /// Drops the input.
    fn drop_input(&mut self)
        ensures
            (*old(self)).waits(*final(self), Seq::<u8>::empty()),
    {
        self.input.clear();
    }

    /// The connection has opened: the handler sees the exchange, and where
    /// it refuses, the connection closes.
    fn announce(&mut self, request: Request, response: Response, now: u64)
        ensures
            reachable(old(self).session(), final(self).session()),
            (*old(self)).kept_input(*final(self)),
    {
        proof {
            lemma_reachable_here(self.session@);
        }
        let shake = Handshake {
            request,
            response,
            peer_addr: self.peer_addr.clone(),
            local_addr: self.local_addr.clone(),
        };
        match self.handler.on_open(shake) {
            Ok(()) => {},
            Err(e) => {
                self.fail(e, now);
            },
        }
    }

    /// A server has the opening request and lets the handler answer it.
    fn serve(&mut self, request: Request, now: u64)
        ensures
            reachable(old(self).session(), final(self).session()),
            (*old(self)).kept_input(*final(self)),
    {
        let ghost start = self.session@;
        proof {
            lemma_reachable_here(start);
        }
        let answer = self.handler.on_request(&request);
        proof {
            if answer is Ok {
                let bytes = crate::handshake::format_response(answer->Ok_0@);
                lemma_reachable_step(start, start, Event::Raw(bytes));
                lemma_reachable_step(start, step(start, Event::Raw(bytes)).0, Event::Opened);
            }
        }
        let outcome = self.session.answered(answer);
        let ghost mid = self.session@;
        match outcome {
            Ok(response) => {
                self.announce(request, response, now);
            },
            Err(e) => {
                self.fail(e, now);
            },
        }
        proof {
            lemma_reachable_chain(start, mid, self.session@);
        }
    }

    /// A client has the answer to its request: the handler sees it, and the
    /// client checks it against the request it sent.
    fn settle(&mut self, response: Response, now: u64)
        ensures
            reachable(old(self).session(), final(self).session()),
            (*old(self)).kept(*final(self)),
            final(self).input() == old(self).input(),
    {
        let ghost start = self.session@;
        proof {
            lemma_reachable_here(start);
            lemma_reachable_step(start, start, Event::Opened);
        }
        let mut sent: Option<Request> = None;
        core::mem::swap(&mut self.request, &mut sent);
        match sent {
            None => {
                self.fail(Error::of(Kind::Internal), now);
            },
            Some(request) => {
                let verdict = self.handler.on_response(&response);
                let outcome = self.session.confirmed(verdict, &response, &request);
                let ghost mid = self.session@;
                match outcome {
                    Ok(()) => {
                        self.announce(request, response, now);
                    },
                    Err(e) => {
                        self.fail(e, now);
                    },
                }
                proof {
                    lemma_reachable_chain(start, mid, self.session@);
                }
            },
        }
    }

    /// A connecting connection goes on with the opening exchange. A server
    /// reads the opening request and has the handler answer it. A client
    /// reads the answer to its request, shows it to the handler and checks
    /// it. Input that is no request or response, or too long for one, ends
    /// the connection.
    fn shake_hands(&mut self, now: u64)
        ensures
            reachable(old(self).session(), final(self).session()),
            (*old(self)).kept(*final(self)),
            old(self).session().state == State::Connecting ==> (*old(self)).handshake_taken(
                *final(self),
                old(self).input(),
                now,
            ),
    {
        let ghost start = self.session@;
        proof {
            lemma_reachable_here(start);
        }
        let limit: usize = self.settings.max_handshake;
        match self.session.role() {
            Role::Server => match Request::parse(self.input.as_slice()) {
                Err(e) => {
                    self.drop_input();
                    self.fail(e, now);
                },
                Ok(None) => {
                    if self.input.len() > limit {
                        self.drop_input();
                        self.fail(Error::of(Kind::CapacityExceeded), now);
                    }
                },
                Ok(Some((request, used))) => {
                    proof {
                        crate::handshake::lemma_parsed_request_len(self.input@);
                    }
                    self.consume(used);
                    self.serve(request, now);
                },
            },
            Role::Client => match Response::parse(self.input.as_slice()) {
                Err(e) => {
                    self.drop_input();
                    self.fail(e, now);
                },
                Ok(None) => {
                    if self.input.len() > limit {
                        self.drop_input();
                        self.fail(Error::of(Kind::CapacityExceeded), now);
                    }
                },
                Ok(Some((response, used))) => {
                    proof {
                        crate::handshake::lemma_parsed_response_len(self.input@);
                    }
                    self.consume(used);
                    self.settle(response, now);
                },
            },
        }
    }

    /// Takes frames off the input for as long as whole frames are there and
    /// the connection has not ended: each goes through the handler's hook to
    /// the session, and what the session asks for is done.
    fn read_frames(&mut self, now: u64)
        ensures
            reachable(old(self).session(), final(self).session()),
            (*old(self)).kept(*final(self)),
            final(self).awaited() == old(self).awaited(),
            old(self).session().state == State::Connecting ==> (*old(self)).waits(
                *final(self),
                old(self).input(),
            ),
            old(self).session().state == State::Closed ==> (*old(self)).waits(
                *final(self),
                Seq::<u8>::empty(),
            ),
            (old(self).session().state == State::Open || old(self).session().state
                == State::Closing) ==> (*old(self)).frames_taken(
                *final(self),
                old(self).input(),
                now,
            ),
    {
        let ghost start = self.session@;
        let ghost first = true;
        proof {
            lemma_reachable_here(start);
        }
        let cfg = self.settings.codec(self.session.role());
        loop
            invariant
                start == old(self).session(),
                reachable(start, self.session@),
                (*old(self)).kept(*self),
                self.awaited() == old(self).awaited(),
                cfg == old(self).codec(),
                cfg == self.codec(),
                first ==> (*old(self)).waits(*self, old(self).input()),
                !first ==> (start.state == State::Open || start.state == State::Closing)
                    && decode_frame(old(self).input(), cfg) is Complete,
            decreases self.input@.len(),
        {
            let ghost before = self.session@;
            proof {
                lemma_reachable_here(before);
            }
            let state = self.session.state();
            if state == State::Closed {
                self.drop_input();
                return ;
            }
            if state == State::Connecting {
                proof {
                    if !first {
                        crate::session::lemma_reachable_advances(start, before);
                    }
                }
                return ;
            }
            match decode(self.input.as_slice(), &cfg) {
                Err(e) => {
                    self.drop_input();
                    self.fail(e, now);
                    proof {
                        lemma_reachable_chain(start, before, self.session@);
                    }
                    return ;
                },
                Ok((None, _)) => {
                    return ;
                },
                Ok((Some(frame), used)) => {
                    proof {
                        lemma_decoded_is_accepted(self.input@, cfg);
                    }
                    self.consume(used);
                    match self.handler.on_frame(frame) {
                        Err(e) => {
                            self.fail(e, now);
                        },
                        Ok(None) => {},
                        Ok(Some(f)) => {
                            proof {
                                lemma_reachable_step(before, before, Event::Frame(f@, now));
                            }
                            match self.session.on_frame(f, now) {
                                Err(e) => {
                                    let ghost mid = self.session@;
                                    self.fail(e, now);
                                    proof {
                                        lemma_reachable_chain(before, mid, self.session@);
                                    }
                                },
                                Ok(action) => {
                                    let ghost mid = self.session@;
                                    self.drive(action, now);
                                    proof {
                                        lemma_reachable_chain(before, mid, self.session@);
                                    }
                                },
                            }
                        },
                    }
                    proof {
                        lemma_reachable_chain(start, before, self.session@);
                        crate::session::lemma_reachable_advances(start, self.session@);
                        first = false;
                    }
                },
            }
        }
    }

    /// Takes bytes that arrived at `now`. A connection that has ended drops
    /// them. A connecting one goes on with the opening exchange, an open or
    /// closing one with its frames, in the order of arrival; and a
    /// connection that has no whole request, response or frame yet keeps
    /// what it has and waits.
    pub fn receive(&mut self, data: &[u8], now: u64)
        ensures
            (*old(self)).received(*final(self), data@, now),
    {
        let ghost start = self.session@;
        proof {
            lemma_reachable_here(start);
        }
        if self.session.is_closed() {
            return ;
        }
        append_bytes(&mut self.input, data);
        let ghost taken = *self;
        if self.session.state() == State::Connecting {
            self.shake_hands(now);
        }
        let ghost mid = *self;
        self.read_frames(now);
        proof {
            lemma_reachable_chain(start, mid.session(), self.session@);
            crate::session::lemma_reachable_advances(start, mid.session());
        }
    }

    /// Sends a message, if the connection is open: the frame that carries it
    /// goes through the handler's hook onto the output queue. Says whether
    /// the connection was open.
    pub fn send(&mut self, msg: Message, now: u64) -> (r: bool)
        ensures
            (*old(self)).sent(*final(self), r),
    {
        proof {
            lemma_reachable_here(self.session@);
        }
        match self.session.frame_for(msg) {
            Some(frame) => {
                self.drive(Some(Action::Send(frame)), now);
                true
            },
            None => false,
        }
    }

    /// Starts to close the connection with `code` and `reason`.
    pub fn close(&mut self, code: CloseCode, reason: &str, now: u64)
        ensures
            (*old(self)).closed(*final(self), code, crate::bytes::ascii(reason@), now),
    {
        let ghost start = self.session@;
        proof {
            lemma_reachable_here(start);
            lemma_reachable_step(start, start, Event::Close(code, crate::bytes::ascii(reason@), now));
        }
        let action = self.session.on_close(code, reason.as_bytes(), now);
        let ghost mid = self.session@;
        self.drive(action, now);
        proof {
            lemma_reachable_chain(start, mid, self.session@);
            crate::session::lemma_reachable_advances(mid, self.session@);
        }
    }

    /// A request to shut down has come: the handler is told, and the
    /// connection starts a normal close if it is open, and ends at once if
    /// it is still connecting.
    pub fn shutdown(&mut self, now: u64)
        ensures
            (*old(self)).shut_down(*final(self), now),
    {
        self.handler.on_shutdown();
        proof {
            reveal_strlit("");
            vstd::string::is_ascii_spec_bytes("");
            assert(crate::bytes::ascii(""@) =~= Seq::<u8>::empty());
        }
        self.close(CloseCode::Normal, "", now);
    }

    /// Takes note that time has moved to `now`: a close that is overdue is
    /// given up, and the handler is told of the close if the peer had said
    /// why it closes.
    pub fn tick(&mut self, now: u64)
        ensures
            (*old(self)).moved_quietly(*final(self), old(self).session().on_tick(now)),
    {
        let action = self.session.on_tick(now);
        self.drive(action, now);
    }

    /// Takes note that `n` more bytes of the oldest chunk of output have been
    /// written. Where those were the last that waited and the session had
    /// only waited to answer the peer's close frame, the connection ends.
    pub fn written(&mut self, n: usize, now: u64)
        ensures
            (*old(self)).moved_quietly(
                *final(self),
                written(old(self).session(), n as nat).on_flushed(),
            ),
    {
        self.session.written(n);
        let action = self.session.on_flushed();
        self.drive(action, now);
    }

    /// Takes note that the socket is gone: the peer has closed it.
    pub fn disconnected(&mut self, now: u64)
        ensures
            (*old(self)).moved_quietly(*final(self), old(self).session().on_disconnected()),
    {
        let action = self.session.on_disconnected();
        self.drive(action, now);
    }

    /// Takes note of a fault of the socket, with the operating system's
    /// number for it if known: the handler is told unless the settings pass
    /// the fault over, and the connection ends, since its socket is gone.
    pub fn io_error(&mut self, os_error: Option<i32>, now: u64)
        ensures
            (*old(self)).lost(*final(self), os_error),
    {
        self.tell(Error::io(os_error));
        let action = self.session.on_disconnected();
        self.drive(action, now);
    }
}

} // verus!
