//! Close frames: the code and the reason that a close frame carries.

use vstd::prelude::*;
use vstd::utf8::{decode_utf8, encode_utf8, valid_utf8};
use crate::bytes::{append_bytes, copy_range};
use crate::frame::{plain_frame, Frame, FrameView, MAX_CONTROL_PAYLOAD};
use crate::message::string_from_utf8;
use crate::protocol::{
    close_code_from, close_code_number, sendable_number, CloseCode, OpCode,
};
use crate::result::{fails_with, Error, Kind};

verus! {

/// The number that a close frame stands for when it carries no code.
pub const NO_STATUS: u16 = 1005;

/// The longest reason, in bytes, that fits into a close frame beside the
/// code.
pub const MAX_REASON: usize = 123;

/// The payload of a close frame for `code` and `reason`: the two bytes of the
/// code, most significant first, and the reason where it fits beside them. A
/// code that may not travel gives an empty payload.
pub open spec fn close_payload(code: CloseCode, reason: Seq<u8>) -> Seq<u8> {
    let n = close_code_number(code);
    if !sendable_number(n) {
        Seq::empty()
    } else if reason.len() > MAX_REASON {
        seq![(n / 256) as u8, (n % 256) as u8]
    } else {
        seq![(n / 256) as u8, (n % 256) as u8] + reason
    }
}

/// The close frame for `code` and `reason`.
pub open spec fn close_frame(code: CloseCode, reason: Seq<u8>) -> FrameView {
    plain_frame(true, OpCode::Close, close_payload(code, reason))
}

/// What the payload of a close frame says: no code and no reason where it is
/// empty; else a code that may travel and a reason that is valid text.
/// Anything else says nothing.
pub open spec fn close_of(payload: Seq<u8>) -> Option<(CloseCode, Seq<char>)> {
    if payload.len() == 0 {
        Some((close_code_from(NO_STATUS), Seq::empty()))
    } else if payload.len() == 1 {
        None
    } else {
        let n = (payload[0] * 256 + payload[1]) as u16;
        let reason = payload.subrange(2, payload.len() as int);
        if sendable_number(n) && valid_utf8(reason) {
            Some((close_code_from(n), decode_utf8(reason)))
        } else {
            None
        }
    }
}

/// Makes the close frame for `code` and `reason`.
pub fn make_close(code: CloseCode, reason: &[u8]) -> (r: Frame)
    ensures
        r@ == close_frame(code, reason@),
{
    let mut payload: Vec<u8> = Vec::new();
    if code.is_sendable() {
        let n: u16 = code.to_u16();
        payload.push((n / 256) as u8);
        payload.push((n % 256) as u8);
        if reason.len() <= MAX_REASON {
            append_bytes(&mut payload, reason);
        }
    }
    assert(payload@ =~= close_payload(code, reason@));
    Frame::control(OpCode::Close, payload)
}

/// Makes a ping frame. More than 125 bytes are refused as a protocol
/// violation.
pub fn make_ping(data: Vec<u8>) -> (r: Result<Frame, Error>)
    ensures
        data@.len() <= MAX_CONTROL_PAYLOAD ==> (r matches Ok(f) && f@ == plain_frame(
            true,
            OpCode::Ping,
            data@,
        )),
        data@.len() > MAX_CONTROL_PAYLOAD ==> fails_with(r, Kind::ProtocolViolation),
{
    Frame::new(true, OpCode::Ping, data)
}

/// Makes a pong frame. More than 125 bytes are refused as a protocol
/// violation.
pub fn make_pong(data: Vec<u8>) -> (r: Result<Frame, Error>)
    ensures
        data@.len() <= MAX_CONTROL_PAYLOAD ==> (r matches Ok(f) && f@ == plain_frame(
            true,
            OpCode::Pong,
            data@,
        )),
        data@.len() > MAX_CONTROL_PAYLOAD ==> fails_with(r, Kind::ProtocolViolation),
{
    Frame::new(true, OpCode::Pong, data)
}

/// Reads the payload of a close frame. A payload of one byte, a code that
/// may not travel and a reason that is not valid text are protocol
/// violations.
pub fn read_close(payload: &[u8]) -> (r: Result<(CloseCode, String), Error>)
    ensures
        match close_of(payload@) {
            Some((code, reason)) => r matches Ok((c, text)) && c == code && text@ == reason,
            None => fails_with(r, Kind::ProtocolViolation),
        },
{
    let n: usize = payload.len();
    if n == 0 {
        return Ok((CloseCode::from_u16(NO_STATUS), String::new()));
    }
    if n == 1 {
        return Err(Error::of(Kind::ProtocolViolation));
    }
    let number: u16 = (payload[0] as u16) * 256 + (payload[1] as u16);
    let code = CloseCode::from_u16(number);
    if !code.is_sendable() {
        return Err(Error::of(Kind::ProtocolViolation));
    }
    match string_from_utf8(copy_range(payload, 2, n)) {
        Some(text) => Ok((code, text)),
        None => Err(Error::of(Kind::ProtocolViolation)),
    }
}

/// A close frame says what it was made to say: the code and the reason are
/// read back from its payload, for every code that may travel and every
/// reason that fits.
pub proof fn lemma_close_round_trip(code: CloseCode, reason: Seq<char>)
    requires
        code.wf(),
        code.is_sendable_spec(),
        encode_utf8(reason).len() <= MAX_REASON,
    ensures
        close_of(close_payload(code, encode_utf8(reason))) == Some((code, reason)),
        close_frame(code, encode_utf8(reason)).is_valid(),
{
    let bytes = encode_utf8(reason);
    let payload = close_payload(code, bytes);
    let n = close_code_number(code);
    assert(payload.subrange(2, payload.len() as int) =~= bytes);
    vstd::utf8::encode_utf8_valid_utf8(reason);
    vstd::utf8::encode_utf8_decode_utf8(reason);
    assert((payload[0] * 256 + payload[1]) as u16 == n);
}

/// No close frame that is made carries a code that may not travel: its
/// payload is empty, or starts with a code that may travel.
pub proof fn lemma_close_payload_may_travel(code: CloseCode, reason: Seq<u8>)
    ensures
        ({
            let payload = close_payload(code, reason);
            payload.len() == 0 || (payload.len() >= 2 && sendable_number(
                (payload[0] * 256 + payload[1]) as u16,
            ))
        }),
{
    let n = close_code_number(code);
    if sendable_number(n) {
        let payload = close_payload(code, reason);
        assert((payload[0] * 256 + payload[1]) as u16 == n);
    }
}

/// Every close frame that is made is a valid control frame.
pub proof fn lemma_close_frame_valid(code: CloseCode, reason: Seq<u8>)
    ensures
        close_frame(code, reason).is_valid(),
{
}

} // verus!
