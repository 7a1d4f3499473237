//! Errors raised by the engine and the close code each one leads to.

use vstd::prelude::*;
use crate::protocol::CloseCode;

verus! {

/// What went wrong.
#[derive(Clone, Copy, Debug, PartialEq, Eq, Structural)]
pub enum Kind {
    /// A fault of the socket underneath the connection.
    IoFailure,
    /// The peer sent a malformed frame or broke the rules of the exchange.
    ProtocolViolation,
    /// A frame or message is larger than the configured bound.
    CapacityExceeded,
    /// The opening exchange did not complete.
    HandshakeFailure,
    /// A fault of the engine itself.
    Internal,
    /// A fault that the handler raised.
    Custom,
}

/// An error: its kind, the operating system's number for a socket fault where
/// there is one, and a readable description.
#[derive(Clone, Debug, PartialEq, Eq)]
pub struct Error {
    pub kind: Kind,
    pub os_error: Option<i32>,
    pub details: String,
}

/// The mathematical value of an [`Error`].
pub struct ErrorView {
    pub kind: Kind,
    pub os_error: Option<i32>,
    pub details: Seq<char>,
}

impl View for Error {
    type V = ErrorView;

    open spec fn view(&self) -> ErrorView {
        ErrorView { kind: self.kind, os_error: self.os_error, details: self.details@ }
    }
}

/// The readable description that belongs to a kind.
pub open spec fn reason_text(kind: Kind) -> Seq<char> {
    match kind {
        Kind::IoFailure => "socket failure"@,
        Kind::ProtocolViolation => "protocol violation"@,
        Kind::CapacityExceeded => "message too big"@,
        Kind::HandshakeFailure => "handshake failed"@,
        Kind::Internal => "internal error"@,
        Kind::Custom => "rejected by application"@,
    }
}

/// The close code with which a connection that failed with `kind` is closed.
pub open spec fn close_code_of(kind: Kind) -> CloseCode {
    match kind {
        Kind::IoFailure => CloseCode::Abnormal,
        Kind::ProtocolViolation => CloseCode::ProtocolError,
        Kind::CapacityExceeded => CloseCode::MessageTooBig,
        Kind::HandshakeFailure => CloseCode::ProtocolError,
        Kind::Internal => CloseCode::InternalError,
        Kind::Custom => CloseCode::PolicyViolation,
    }
}

/// The close code that the peer is sent when a connection is closed after a
/// failure of `kind` that is not the socket's own: the code of the kind, and
/// the code of a protocol error where the kind has none that may travel.
pub open spec fn sent_code_of(kind: Kind) -> CloseCode {
    if kind == Kind::IoFailure {
        CloseCode::ProtocolError
    } else {
        close_code_of(kind)
    }
}

/// Whatever fails, the code that the peer is sent may travel.
pub proof fn lemma_sent_code_may_travel(kind: Kind)
    ensures
        sent_code_of(kind).wf(),
        sent_code_of(kind).is_sendable_spec(),
        1000 <= crate::protocol::close_code_number(sent_code_of(kind)) <= 4999,
{
}

/// The error that the engine raises for `kind`: no system number, and the
/// kind's own description.
pub open spec fn plain_error(kind: Kind) -> ErrorView {
    ErrorView { kind, os_error: None, details: reason_text(kind) }
}

/// An error in words: the description of its kind, and after a colon its
/// own description where that says more.
pub open spec fn error_message(e: ErrorView) -> Seq<char> {
    if e.details == reason_text(e.kind) {
        reason_text(e.kind)
    } else {
        reason_text(e.kind) + ": "@ + e.details
    }
}

/// Whether `r` is the failure that the engine raises for `kind`.
pub open spec fn fails_with<T>(r: Result<T, Error>, kind: Kind) -> bool {
    r matches Err(e) && e@ == plain_error(kind)
}

impl Kind {
    /// The readable description of this kind.
    pub fn reason(&self) -> (r: &'static str)
        ensures
            r@ == reason_text(*self),
    {
        match self {
            Kind::IoFailure => "socket failure",
            Kind::ProtocolViolation => "protocol violation",
            Kind::CapacityExceeded => "message too big",
            Kind::HandshakeFailure => "handshake failed",
            Kind::Internal => "internal error",
            Kind::Custom => "rejected by application",
        }
    }

    /// The close code that the peer is sent after a failure of this kind
    /// that is not the socket's own.
    pub fn sent_code(&self) -> (r: CloseCode)
        ensures
            r == sent_code_of(*self),
            r.wf(),
            r.is_sendable_spec(),
    {
        match self {
            Kind::IoFailure => CloseCode::ProtocolError,
            _ => self.close_code(),
        }
    }

    /// The close code that a failure of this kind leads to.
    pub fn close_code(&self) -> (r: CloseCode)
        ensures
            r == close_code_of(*self),
            r.wf(),
    {
        match self {
            Kind::IoFailure => CloseCode::Abnormal,
            Kind::ProtocolViolation => CloseCode::ProtocolError,
            Kind::CapacityExceeded => CloseCode::MessageTooBig,
            Kind::HandshakeFailure => CloseCode::ProtocolError,
            Kind::Internal => CloseCode::InternalError,
            Kind::Custom => CloseCode::PolicyViolation,
        }
    }
}

impl Error {
    /// An error of the given kind with a description of the caller's choice.
    pub fn new(kind: Kind, details: &str) -> (r: Error)
        ensures
            r@ == (ErrorView { kind, os_error: None, details: details@ }),
    {
        Error { kind, os_error: None, details: details.to_owned() }
    }

    /// The error that the engine raises for `kind`.
    pub fn of(kind: Kind) -> (r: Error)
        ensures
            r@ == plain_error(kind),
    {
        Error { kind, os_error: None, details: kind.reason().to_owned() }
    }

    /// A socket fault, with the operating system's number for it if known.
    pub fn io(os_error: Option<i32>) -> (r: Error)
        ensures
            r@ == (ErrorView {
                kind: Kind::IoFailure,
                os_error,
                details: reason_text(Kind::IoFailure),
            }),
    {
        Error { kind: Kind::IoFailure, os_error, details: Kind::IoFailure.reason().to_owned() }
    }

    /// The error in words: the description of its kind, and after a colon
    /// its own description where that says more.
    pub fn message(&self) -> (r: String)
        ensures
            r@ == error_message(self@),
    {
        let plain: String = self.kind.reason().to_owned();
        if self.details == plain {
            plain
        } else {
            let mut text = plain;
            text.append(": ");
            text.append(self.details.as_str());
            text
        }
    }

    /// The close code with which the failed connection is closed.
    pub fn close_code(&self) -> (r: CloseCode)
        ensures
            r == close_code_of(self@.kind),
    {
        self.kind.close_code()
    }

    /// Whether this is the socket fault numbered `os_code`.
    pub fn is_os_error(&self, os_code: i32) -> (r: bool)
        ensures
            r == (self@.kind == Kind::IoFailure && self@.os_error == Some(os_code)),
    {
        match self.kind {
            Kind::IoFailure => match self.os_error {
                Some(n) => n == os_code,
                None => false,
            },
            _ => false,
        }
    }
}

} // verus!
