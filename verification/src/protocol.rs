//! Operation codes and close codes, with their numbers on the wire.

use vstd::prelude::*;

verus! {

/// What a frame carries.
#[derive(Clone, Copy, Debug, PartialEq, Eq, Structural)]
pub enum OpCode {
    Continuation,
    Text,
    Binary,
    Close,
    Ping,
    Pong,
}

/// The number that stands for an operation code in a frame header.
pub open spec fn opcode_number(op: OpCode) -> u8 {
    match op {
        OpCode::Continuation => 0,
        OpCode::Text => 1,
        OpCode::Binary => 2,
        OpCode::Close => 8,
        OpCode::Ping => 9,
        OpCode::Pong => 10,
    }
}

/// The operation code that a header number stands for, if any.
pub open spec fn opcode_of(n: u8) -> Option<OpCode> {
    if n == 0 {
        Some(OpCode::Continuation)
    } else if n == 1 {
        Some(OpCode::Text)
    } else if n == 2 {
        Some(OpCode::Binary)
    } else if n == 8 {
        Some(OpCode::Close)
    } else if n == 9 {
        Some(OpCode::Ping)
    } else if n == 10 {
        Some(OpCode::Pong)
    } else {
        None
    }
}

impl OpCode {
    /// Whether frames of this kind manage the connection rather than carry data.
    pub open spec fn is_control_spec(self) -> bool {
        self == OpCode::Close || self == OpCode::Ping || self == OpCode::Pong
    }

    /// Whether frames of this kind manage the connection rather than carry data.
    #[verifier::when_used_as_spec(is_control_spec)]
    pub fn is_control(self) -> (r: bool)
        ensures
            r == self.is_control_spec(),
    {
        match self {
            OpCode::Close | OpCode::Ping | OpCode::Pong => true,
            _ => false,
        }
    }

    /// The header number of this operation code.
    pub fn to_u8(self) -> (r: u8)
        ensures
            r == opcode_number(self),
            r < 16,
            opcode_of(r) == Some(self),
    {
        match self {
            OpCode::Continuation => 0,
            OpCode::Text => 1,
            OpCode::Binary => 2,
            OpCode::Close => 8,
            OpCode::Ping => 9,
            OpCode::Pong => 10,
        }
    }

    /// Reads a header number; `None` for the numbers that are reserved.
    pub fn from_u8(n: u8) -> (r: Option<OpCode>)
        ensures
            r == opcode_of(n),
            r matches Some(op) ==> opcode_number(op) == n,
    {
        if n == 0 {
            Some(OpCode::Continuation)
        } else if n == 1 {
            Some(OpCode::Text)
        } else if n == 2 {
            Some(OpCode::Binary)
        } else if n == 8 {
            Some(OpCode::Close)
        } else if n == 9 {
            Some(OpCode::Ping)
        } else if n == 10 {
            Some(OpCode::Pong)
        } else {
            None
        }
    }
}

/// Why a connection is closed.
#[derive(Clone, Copy, Debug, PartialEq, Eq, Structural)]
pub enum CloseCode {
    /// 1000: the purpose of the connection is fulfilled.
    Normal,
    /// 1001: the endpoint goes away.
    GoingAway,
    /// 1002: the peer broke the protocol.
    ProtocolError,
    /// 1003: data of a kind that cannot be accepted.
    Unsupported,
    /// 1006: the connection was lost without a close frame.
    Abnormal,
    /// 1007: a text message that is not valid text.
    InvalidPayload,
    /// 1008: a message that breaks the endpoint's policy.
    PolicyViolation,
    /// 1009: a message too big to process.
    MessageTooBig,
    /// 1010: the server did not negotiate a required extension.
    ExtensionRequired,
    /// 1011: the endpoint met an unexpected condition.
    InternalError,
    /// 1012: the service restarts.
    ServiceRestart,
    /// 1013: the service is overloaded; try again later.
    TryAgainLater,
    /// 1015: the TLS handshake failed.
    TlsHandshakeFailure,
    /// Any other number, among them the registered and private ranges.
    Other(u16),
}

/// Whether `n` is the number of one of the named close codes.
pub open spec fn is_named_code(n: u16) -> bool {
    1000 <= n <= 1003 || 1006 <= n <= 1013 || n == 1015
}

/// The number that stands for a close code on the wire.
pub open spec fn close_code_number(code: CloseCode) -> u16 {
    match code {
        CloseCode::Normal => 1000,
        CloseCode::GoingAway => 1001,
        CloseCode::ProtocolError => 1002,
        CloseCode::Unsupported => 1003,
        CloseCode::Abnormal => 1006,
        CloseCode::InvalidPayload => 1007,
        CloseCode::PolicyViolation => 1008,
        CloseCode::MessageTooBig => 1009,
        CloseCode::ExtensionRequired => 1010,
        CloseCode::InternalError => 1011,
        CloseCode::ServiceRestart => 1012,
        CloseCode::TryAgainLater => 1013,
        CloseCode::TlsHandshakeFailure => 1015,
        CloseCode::Other(n) => n,
    }
}

/// The close code that a number stands for.
pub open spec fn close_code_from(n: u16) -> CloseCode {
    if n == 1000 {
        CloseCode::Normal
    } else if n == 1001 {
        CloseCode::GoingAway
    } else if n == 1002 {
        CloseCode::ProtocolError
    } else if n == 1003 {
        CloseCode::Unsupported
    } else if n == 1006 {
        CloseCode::Abnormal
    } else if n == 1007 {
        CloseCode::InvalidPayload
    } else if n == 1008 {
        CloseCode::PolicyViolation
    } else if n == 1009 {
        CloseCode::MessageTooBig
    } else if n == 1010 {
        CloseCode::ExtensionRequired
    } else if n == 1011 {
        CloseCode::InternalError
    } else if n == 1012 {
        CloseCode::ServiceRestart
    } else if n == 1013 {
        CloseCode::TryAgainLater
    } else if n == 1015 {
        CloseCode::TlsHandshakeFailure
    } else {
        CloseCode::Other(n)
    }
}

/// Whether a number may travel in a close frame: the codes with a defined
/// meaning that are not reserved for local use, the registered range and the
/// private range. Numbers under 1000, the local-only codes 1005, 1006 and 1015
/// and the unassigned ranges may not.
pub open spec fn sendable_number(n: u16) -> bool {
    1000 <= n <= 1003 || 1007 <= n <= 1013 || 3000 <= n <= 4999
}

impl CloseCode {
    /// A close code is well formed when `Other` holds no number that has a
    /// name of its own.
    pub open spec fn wf(self) -> bool {
        match self {
            CloseCode::Other(n) => !is_named_code(n),
            _ => true,
        }
    }

    /// The number of this close code.
    pub fn to_u16(self) -> (r: u16)
        ensures
            r == close_code_number(self),
    {
        match self {
            CloseCode::Normal => 1000,
            CloseCode::GoingAway => 1001,
            CloseCode::ProtocolError => 1002,
            CloseCode::Unsupported => 1003,
            CloseCode::Abnormal => 1006,
            CloseCode::InvalidPayload => 1007,
            CloseCode::PolicyViolation => 1008,
            CloseCode::MessageTooBig => 1009,
            CloseCode::ExtensionRequired => 1010,
            CloseCode::InternalError => 1011,
            CloseCode::ServiceRestart => 1012,
            CloseCode::TryAgainLater => 1013,
            CloseCode::TlsHandshakeFailure => 1015,
            CloseCode::Other(n) => n,
        }
    }

    /// The close code for a number, always well formed.
    pub fn from_u16(n: u16) -> (r: CloseCode)
        ensures
            r == close_code_from(n),
            r.wf(),
            close_code_number(r) == n,
    {
        if n == 1000 {
            CloseCode::Normal
        } else if n == 1001 {
            CloseCode::GoingAway
        } else if n == 1002 {
            CloseCode::ProtocolError
        } else if n == 1003 {
            CloseCode::Unsupported
        } else if n == 1006 {
            CloseCode::Abnormal
        } else if n == 1007 {
            CloseCode::InvalidPayload
        } else if n == 1008 {
            CloseCode::PolicyViolation
        } else if n == 1009 {
            CloseCode::MessageTooBig
        } else if n == 1010 {
            CloseCode::ExtensionRequired
        } else if n == 1011 {
            CloseCode::InternalError
        } else if n == 1012 {
            CloseCode::ServiceRestart
        } else if n == 1013 {
            CloseCode::TryAgainLater
        } else if n == 1015 {
            CloseCode::TlsHandshakeFailure
        } else {
            CloseCode::Other(n)
        }
    }

    /// Whether this code may travel in a close frame.
    pub open spec fn is_sendable_spec(self) -> bool {
        sendable_number(close_code_number(self))
    }

    /// Whether this code may travel in a close frame.
    #[verifier::when_used_as_spec(is_sendable_spec)]
    pub fn is_sendable(self) -> (r: bool)
        ensures
            r == self.is_sendable_spec(),
    {
        let n: u16 = self.to_u16();
        (1000 <= n && n <= 1003) || (1007 <= n && n <= 1013) || (3000 <= n && n <= 4999)
    }
}

/// Numbers and close codes correspond one to one: a well-formed code is the
/// code of its own number.
pub proof fn lemma_close_code_round_trip(code: CloseCode)
    requires
        code.wf(),
    ensures
        close_code_from(close_code_number(code)) == code,
{
}

/// Every number is the number of its own code.
pub proof fn lemma_close_number_round_trip(n: u16)
    ensures
        close_code_number(close_code_from(n)) == n,
        close_code_from(n).wf(),
{
}

/// Every operation code is read back from its own header number.
pub proof fn lemma_opcode_round_trip(op: OpCode)
    ensures
        opcode_of(opcode_number(op)) == Some(op),
        opcode_number(op) < 16,
{
}

} // verus!
