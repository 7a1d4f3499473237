//! The codec between frames and bytes on the wire.

use vstd::prelude::*;
use crate::bytes::append_bytes;
use crate::frame::{Frame, FrameView};
use crate::mask::{key_bytes, lemma_mask_involution, mask_bytes, masked};
use crate::protocol::{opcode_number, opcode_of, OpCode};
use crate::result::{fails_with, Error, Kind};

verus! {

/// What a decoder accepts: the largest payload, which reserved bits an
/// extension has claimed, and whether frames from the peer must be masked (a
/// server expects masked frames, a client unmasked ones).
#[derive(Clone, Copy, Debug, PartialEq, Eq)]
pub struct CodecConfig {
    pub max_payload: usize,
    pub allow_rsv1: bool,
    pub allow_rsv2: bool,
    pub allow_rsv3: bool,
    pub expect_masked: bool,
}

/// The first header byte: the final bit, the three reserved bits and the
/// operation code.
pub open spec fn first_byte(f: FrameView) -> u8 {
    ((if f.fin { 128int } else { 0 }) + (if f.rsv1 { 64int } else { 0 }) + (if f.rsv2 {
        32int
    } else {
        0
    }) + (if f.rsv3 { 16int } else { 0 }) + opcode_number(f.opcode)) as u8
}

/// The eight bytes of `n`, most significant first.
#[verifier::opaque]
pub open spec fn be64_bytes(n: nat) -> Seq<u8> {
    seq![
        ((n / 0x100_0000_0000_0000) % 256) as u8,
        ((n / 0x1_0000_0000_0000) % 256) as u8,
        ((n / 0x100_0000_0000) % 256) as u8,
        ((n / 0x1_0000_0000) % 256) as u8,
        ((n / 0x100_0000) % 256) as u8,
        ((n / 0x1_0000) % 256) as u8,
        ((n / 0x100) % 256) as u8,
        (n % 256) as u8,
    ]
}

/// The number that eight bytes stand for, most significant first.
#[verifier::opaque]
pub open spec fn be64_value(b: Seq<u8>) -> nat
    recommends
        b.len() == 8,
{
    (b[0] as nat) * 0x100_0000_0000_0000 + (b[1] as nat) * 0x1_0000_0000_0000 + (b[2] as nat)
        * 0x100_0000_0000 + (b[3] as nat) * 0x1_0000_0000 + (b[4] as nat) * 0x100_0000 + (
    b[5] as nat) * 0x1_0000 + (b[6] as nat) * 0x100 + (b[7] as nat)
}

/// The mask flag and the payload length in the smallest of the three forms
/// that holds it: seven bits, the escape 126 and sixteen bits, or the escape
/// 127 and sixty-four bits.
#[verifier::opaque]
pub open spec fn length_bytes(len: nat, masked: bool) -> Seq<u8> {
    let flag: int = if masked { 128 } else { 0 };
    if len < 126 {
        seq![(flag + len) as u8]
    } else if len < 0x1_0000 {
        seq![(flag + 126) as u8, (len / 256) as u8, (len % 256) as u8]
    } else {
        seq![(flag + 127) as u8] + be64_bytes(len)
    }
}

/// The tail of an encoding: the key and the masked payload, or the payload.
pub open spec fn encode_body(f: FrameView, key: [u8; 4]) -> Seq<u8> {
    if f.masked {
        key_bytes(key) + mask_bytes(f.payload, key)
    } else {
        f.payload
    }
}

/// The bytes of a frame on the wire. `key` is used only by a masked frame.
pub open spec fn encode_frame(f: FrameView, key: [u8; 4]) -> Seq<u8> {
    seq![first_byte(f)] + length_bytes(f.payload.len(), f.masked) + encode_body(f, key)
}

/// What the length field of a header says.
pub enum DeclaredLength {
    /// The buffer ends inside the length field.
    Incomplete,
    /// An extended form holds a length that a shorter form could hold.
    NotMinimal,
    /// The payload length, and where the length field ends.
    Length(nat, int),
}

/// Reads the length field of a buffer of at least two bytes.
pub open spec fn declared_length(buf: Seq<u8>) -> DeclaredLength
    recommends
        buf.len() >= 2,
{
    let len7 = buf[1] % 128;
    if len7 < 126 {
        DeclaredLength::Length(len7 as nat, 2)
    } else if len7 == 126 {
        if buf.len() < 4 {
            DeclaredLength::Incomplete
        } else {
            let len = (buf[2] as nat) * 256 + (buf[3] as nat);
            if len < 126 {
                DeclaredLength::NotMinimal
            } else {
                DeclaredLength::Length(len, 4)
            }
        }
    } else {
        if buf.len() < 10 {
            DeclaredLength::Incomplete
        } else {
            let len = be64_value(buf.subrange(2, 10));
            if len < 0x1_0000 {
                DeclaredLength::NotMinimal
            } else {
                DeclaredLength::Length(len, 10)
            }
        }
    }
}

/// The outcome of decoding the start of a buffer.
pub enum Decoded {
    /// The buffer does not yet hold a whole frame.
    Incomplete,
    /// The bytes break a rule of the protocol.
    Violation,
    /// The header declares a payload beyond the configured bound.
    TooBig,
    /// A frame, and the number of bytes it took.
    Complete(FrameView, nat),
}

/// Whether the first two header bytes break a rule: a reserved bit that no
/// extension has claimed, an unknown operation code, a control frame that is
/// a fragment or declares more than 125 bytes, or a mask flag that does not
/// fit the role.
pub open spec fn header_violation(b0: u8, b1: u8, cfg: CodecConfig) -> bool {
    let fin = b0 >= 128;
    let op = opcode_of(b0 % 16);
    ||| ((b0 / 64) % 2 == 1 && !cfg.allow_rsv1)
    ||| ((b0 / 32) % 2 == 1 && !cfg.allow_rsv2)
    ||| ((b0 / 16) % 2 == 1 && !cfg.allow_rsv3)
    ||| op is None
    ||| (op.unwrap().is_control_spec() && (!fin || b1 % 128 > 125))
    ||| (b1 >= 128) != cfg.expect_masked
}

/// Decodes the frame at the start of `buf`. Rules are checked as soon as the
/// bytes they speak of are there, and the bound on the payload before any
/// payload byte is looked at.
#[verifier::opaque]
pub open spec fn decode_frame(buf: Seq<u8>, cfg: CodecConfig) -> Decoded {
    if buf.len() < 2 {
        Decoded::Incomplete
    } else if header_violation(buf[0], buf[1], cfg) {
        Decoded::Violation
    } else {
        match declared_length(buf) {
            DeclaredLength::Incomplete => Decoded::Incomplete,
            DeclaredLength::NotMinimal => Decoded::Violation,
            DeclaredLength::Length(len, at) => {
                let masked = buf[1] >= 128;
                let start: int = if masked { at + 4 } else { at };
                let end: int = start + len;
                if len > cfg.max_payload {
                    Decoded::TooBig
                } else if buf.len() < end {
                    Decoded::Incomplete
                } else {
                    let raw = buf.subrange(start, end);
                    let key = [buf[at], buf[at + 1], buf[at + 2], buf[at + 3]];
                    Decoded::Complete(
                        FrameView {
                            fin: buf[0] >= 128,
                            rsv1: (buf[0] / 64) % 2 == 1,
                            rsv2: (buf[0] / 32) % 2 == 1,
                            rsv3: (buf[0] / 16) % 2 == 1,
                            opcode: opcode_of(buf[0] % 16).unwrap(),
                            masked,
                            payload: if masked { mask_bytes(raw, key) } else { raw },
                        },
                        end as nat,
                    )
                }
            },
        }
    }
}

/// Whether what a decoder returned is the outcome `d`.
pub open spec fn decode_agrees(r: Result<(Option<Frame>, usize), Error>, d: Decoded) -> bool {
    match d {
        Decoded::Incomplete => r matches Ok((None, n)) && n == 0,
        Decoded::Complete(f, n) => r matches Ok((Some(fr), m)) && fr@ == f && m == n,
        Decoded::Violation => fails_with(r, Kind::ProtocolViolation),
        Decoded::TooBig => fails_with(r, Kind::CapacityExceeded),
    }
}

/// Appends the eight bytes of `n`, most significant first.
fn push_be64(out: &mut Vec<u8>, n: u64)
    ensures
        final(out)@ == old(out)@ + be64_bytes(n as nat),
{
    reveal(be64_bytes);
    out.push(((n / 0x100_0000_0000_0000) % 256) as u8);
    out.push(((n / 0x1_0000_0000_0000) % 256) as u8);
    out.push(((n / 0x100_0000_0000) % 256) as u8);
    out.push(((n / 0x1_0000_0000) % 256) as u8);
    out.push(((n / 0x100_0000) % 256) as u8);
    out.push(((n / 0x1_0000) % 256) as u8);
    out.push(((n / 0x100) % 256) as u8);
    out.push((n % 256) as u8);
    assert(out@ =~= old(out)@ + be64_bytes(n as nat));
}

/// Reads the eight bytes at `at` as a number, most significant first.
fn read_be64(buf: &[u8], at: usize) -> (n: u64)
    requires
        at + 8 <= buf@.len(),
    ensures
        n == be64_value(buf@.subrange(at as int, at + 8)),
{
    reveal(be64_value);
    (buf[at] as u64) * 0x100_0000_0000_0000 + (buf[at + 1] as u64) * 0x1_0000_0000_0000 + (buf[at
        + 2] as u64) * 0x100_0000_0000 + (buf[at + 3] as u64) * 0x1_0000_0000 + (buf[at
        + 4] as u64) * 0x100_0000 + (buf[at + 5] as u64) * 0x1_0000 + (buf[at + 6] as u64) * 0x100
        + (buf[at + 7] as u64)
}

/// Appends the mask flag and the payload length in its smallest form.
fn push_length(out: &mut Vec<u8>, len: usize, masked: bool)
    ensures
        final(out)@ == old(out)@ + length_bytes(len as nat, masked),
{
    reveal(length_bytes);
    let flag: u8 = if masked { 128 } else { 0 };
    if len < 126 {
        out.push(flag + (len as u8));
        assert(out@ =~= old(out)@ + length_bytes(len as nat, masked));
    } else if len < 0x1_0000 {
        out.push(flag + 126);
        out.push((len / 256) as u8);
        out.push((len % 256) as u8);
        assert(out@ =~= old(out)@ + length_bytes(len as nat, masked));
    } else {
        out.push(flag + 127);
        let ghost mid = out@;
        push_be64(out, len as u64);
        assert(out@ =~= old(out)@ + length_bytes(len as nat, masked));
    }
}

/// Writes a frame as bytes for the wire. A masked frame has its payload
/// masked with `key`, which travels in the header; an unmasked frame ignores
/// `key`.
pub fn encode(frame: &Frame, key: [u8; 4]) -> (r: Vec<u8>)
    ensures
        r@ == encode_frame(frame@, key),
{
    let mut out: Vec<u8> = Vec::new();
    let b0: u8 = (if frame.is_final() { 128u8 } else { 0u8 }) + (if frame.has_rsv1() {
        64u8
    } else {
        0u8
    }) + (if frame.has_rsv2() { 32u8 } else { 0u8 }) + (if frame.has_rsv3() { 16u8 } else { 0u8 })
        + frame.opcode().to_u8();
    out.push(b0);
    assert(out@ =~= seq![first_byte(frame@)]);
    push_length(&mut out, frame.len(), frame.is_masked());
    if frame.is_masked() {
        let ghost head = out@;
        out.push(key[0]);
        out.push(key[1]);
        out.push(key[2]);
        out.push(key[3]);
        assert(out@ =~= head + key_bytes(key));
        let body = masked(frame.payload().as_slice(), key);
        append_bytes(&mut out, body.as_slice());
        assert(out@ =~= encode_frame(frame@, key));
    } else {
        append_bytes(&mut out, frame.payload().as_slice());
    }
    out
}

/// Decodes the next frame of `buf`, which may hold none, one or many.
/// Returns the frame and the number of bytes it took, or no frame and zero
/// when the buffer has to grow first: the caller keeps the bytes and asks
/// again. A masked payload comes back unmasked.
pub fn decode(buf: &[u8], cfg: &CodecConfig) -> (r: Result<(Option<Frame>, usize), Error>)
    ensures
        decode_agrees(r, decode_frame(buf@, *cfg)),
{
    reveal(decode_frame);
    let total: usize = buf.len();
    if total < 2 {
        return Ok((None, 0));
    }
    let b0: u8 = buf[0];
    let b1: u8 = buf[1];
    let fin: bool = b0 >= 128;
    let rsv1: bool = (b0 / 64) % 2 == 1;
    let rsv2: bool = (b0 / 32) % 2 == 1;
    let rsv3: bool = (b0 / 16) % 2 == 1;
    let masked_flag: bool = b1 >= 128;
    let len7: u8 = b1 % 128;
    if (rsv1 && !cfg.allow_rsv1) || (rsv2 && !cfg.allow_rsv2) || (rsv3 && !cfg.allow_rsv3) {
        return Err(Error::of(Kind::ProtocolViolation));
    }
    let opcode: OpCode = match OpCode::from_u8(b0 % 16) {
        Some(op) => op,
        None => {
            return Err(Error::of(Kind::ProtocolViolation));
        },
    };
    if opcode.is_control() && (!fin || len7 > 125) {
        return Err(Error::of(Kind::ProtocolViolation));
    }
    if masked_flag != cfg.expect_masked {
        return Err(Error::of(Kind::ProtocolViolation));
    }
    assert(!header_violation(b0, b1, *cfg));
    let mut at: usize = 2;
    let mut declared: u64 = len7 as u64;
    if len7 == 126 {
        if total < 4 {
            return Ok((None, 0));
        }
        declared = (buf[2] as u64) * 256 + (buf[3] as u64);
        if declared < 126 {
            return Err(Error::of(Kind::ProtocolViolation));
        }
        at = 4;
    } else if len7 == 127 {
        if total < 10 {
            return Ok((None, 0));
        }
        declared = read_be64(buf, 2);
        if declared < 0x1_0000 {
            return Err(Error::of(Kind::ProtocolViolation));
        }
        at = 10;
    }
    assert(declared_length(buf@) == DeclaredLength::Length(declared as nat, at as int));
    if declared > cfg.max_payload as u64 {
        return Err(Error::of(Kind::CapacityExceeded));
    }
    let len: usize = declared as usize;
    let start: usize = if masked_flag { at + 4 } else { at };
    if total < start || total - start < len {
        return Ok((None, 0));
    }
    let raw = vstd::slice::slice_subrange(buf, start, start + len);
    let payload: Vec<u8> = if masked_flag {
        let key: [u8; 4] = [buf[at], buf[at + 1], buf[at + 2], buf[at + 3]];
        masked(raw, key)
    } else {
        vstd::slice::slice_to_vec(raw)
    };
    let frame = Frame::from_parts(fin, rsv1, rsv2, rsv3, opcode, masked_flag, payload);
    Ok((Some(frame), start + len))
}

/// Whether a decoder configured with `cfg` takes the frame `f`: the frame is
/// valid, sets no reserved bit that is unclaimed, is masked as the role
/// expects, and is within the bound.
pub open spec fn accepts(cfg: CodecConfig, f: FrameView) -> bool {
    &&& f.is_valid()
    &&& (f.rsv1 ==> cfg.allow_rsv1)
    &&& (f.rsv2 ==> cfg.allow_rsv2)
    &&& (f.rsv3 ==> cfg.allow_rsv3)
    &&& f.masked == cfg.expect_masked
    &&& f.payload.len() <= cfg.max_payload
}

proof fn lemma_be64_round_trip(n: nat)
    requires
        n < 0x1_0000_0000_0000_0000,
    ensures
        be64_value(be64_bytes(n)) == n,
        be64_bytes(n).len() == 8,
{
    reveal(be64_bytes);
    reveal(be64_value);
    let b = be64_bytes(n);
    let q1 = n / 0x100;
    let q2 = n / 0x1_0000;
    let q3 = n / 0x100_0000;
    let q4 = n / 0x1_0000_0000;
    let q5 = n / 0x100_0000_0000;
    let q6 = n / 0x1_0000_0000_0000;
    let q7 = n / 0x100_0000_0000_0000;
    assert(q2 == q1 / 0x100);
    assert(q3 == q2 / 0x100);
    assert(q4 == q3 / 0x100);
    assert(q5 == q4 / 0x100);
    assert(q6 == q5 / 0x100);
    assert(q7 == q6 / 0x100);
    assert(q7 < 256);
    assert(b[0] == q7);
    assert(b[1] == q6 % 256);
    assert(b[2] == q5 % 256);
    assert(b[3] == q4 % 256);
    assert(b[4] == q3 % 256);
    assert(b[5] == q2 % 256);
    assert(b[6] == q1 % 256);
    assert(b[7] == n % 256);
}

proof fn lemma_header_bits(f: FrameView)
    ensures
        (first_byte(f) >= 128) == f.fin,
        ((first_byte(f) / 64) % 2 == 1) == f.rsv1,
        ((first_byte(f) / 32) % 2 == 1) == f.rsv2,
        ((first_byte(f) / 16) % 2 == 1) == f.rsv3,
        opcode_of(first_byte(f) % 16) == Some(f.opcode),
{
    let op = opcode_number(f.opcode);
    assert(op < 16);
    assert(opcode_of(op) == Some(f.opcode));
}

proof fn lemma_length_field(len: nat, masked: bool, tail: Seq<u8>, b0: u8)
    requires
        len < 0x1_0000_0000_0000_0000,
    ensures
        ({
            let buf = seq![b0] + length_bytes(len, masked) + tail;
            &&& declared_length(buf) == DeclaredLength::Length(
                len,
                (1 + length_bytes(len, masked).len()) as int,
            )
            &&& (buf[1] >= 128) == masked
            &&& (len <= 125 <==> buf[1] % 128 <= 125)
            &&& buf.len() == 1 + length_bytes(len, masked).len() + tail.len()
            &&& buf[0] == b0
            &&& length_bytes(len, masked).len() >= 1
        }),
{
    reveal(length_bytes);
    let lb = length_bytes(len, masked);
    let buf = seq![b0] + lb + tail;
    assert(buf[1] == lb[0]);
    if len < 126 {
    } else if len < 0x1_0000 {
        assert(buf[2] == lb[1]);
        assert(buf[3] == lb[2]);
    } else {
        lemma_be64_round_trip(len);
        assert(lb.len() == 9);
        assert(buf.subrange(2, 10) =~= be64_bytes(len));
    }
}

proof fn lemma_decode_parts(
    buf: Seq<u8>,
    cfg: CodecConfig,
    f: FrameView,
    at: int,
    key: [u8; 4],
)
    requires
        accepts(cfg, f),
        buf.len() >= 2,
        declared_length(buf) == DeclaredLength::Length(f.payload.len(), at),
        (buf[0] >= 128) == f.fin,
        ((buf[0] / 64) % 2 == 1) == f.rsv1,
        ((buf[0] / 32) % 2 == 1) == f.rsv2,
        ((buf[0] / 16) % 2 == 1) == f.rsv3,
        opcode_of(buf[0] % 16) == Some(f.opcode),
        (buf[1] >= 128) == f.masked,
        f.payload.len() <= 125 <==> buf[1] % 128 <= 125,
        at >= 2,
        f.masked ==> buf.len() >= at + 4 + f.payload.len() && buf[at] == key[0] && buf[at + 1]
            == key[1] && buf[at + 2] == key[2] && buf[at + 3] == key[3] && buf.subrange(
            at + 4,
            at + 4 + f.payload.len(),
        ) == mask_bytes(f.payload, key),
        !f.masked ==> buf.len() >= at + f.payload.len() && buf.subrange(
            at,
            at + f.payload.len(),
        ) == f.payload,
    ensures
        decode_frame(buf, cfg) == Decoded::Complete(
            f,
            ((if f.masked { at + 4 } else { at }) + f.payload.len()) as nat,
        ),
{
    reveal(decode_frame);
    assert(!header_violation(buf[0], buf[1], cfg));
    if f.masked {
        let k = [buf[at], buf[at + 1], buf[at + 2], buf[at + 3]];
        assert(k =~= key);
        lemma_mask_involution(f.payload, key);
    }
}

proof fn lemma_decode_layout(
    f: FrameView,
    key: [u8; 4],
    cfg: CodecConfig,
    rest: Seq<u8>,
    lb: Seq<u8>,
)
    requires
        accepts(cfg, f),
        lb.len() >= 1,
        ({
            let buf = seq![first_byte(f)] + lb + (encode_body(f, key) + rest);
            &&& declared_length(buf) == DeclaredLength::Length(
                f.payload.len(),
                (1 + lb.len()) as int,
            )
            &&& (buf[1] >= 128) == f.masked
            &&& (f.payload.len() <= 125 <==> buf[1] % 128 <= 125)
        }),
    ensures
        decode_frame(seq![first_byte(f)] + lb + (encode_body(f, key) + rest), cfg)
            == Decoded::Complete(f, 1 + lb.len() + encode_body(f, key).len()),
{
    let len = f.payload.len();
    let body = encode_body(f, key);
    let tail = body + rest;
    let buf = seq![first_byte(f)] + lb + tail;
    let at: int = (1 + lb.len()) as int;
    lemma_header_bits(f);
    assert(buf[0] == first_byte(f));
    assert forall|i: int| 0 <= i < tail.len() implies buf[at + i] == tail[i] by {}
    if f.masked {
        assert(buf[at] == tail[0]);
        assert(buf[at + 1] == tail[1]);
        assert(buf[at + 2] == tail[2]);
        assert(buf[at + 3] == tail[3]);
        assert forall|i: int| 0 <= i < len implies buf[at + 4 + i] == mask_bytes(f.payload, key)[i] by {
            assert(buf[at + 4 + i] == tail[4 + i]);
        }
        assert(buf.subrange(at + 4, at + 4 + len) =~= mask_bytes(f.payload, key));
    } else {
        assert(buf.subrange(at, at + len) =~= f.payload);
    }
    lemma_decode_parts(buf, cfg, f, at, key);
}

/// Decoding what was encoded gives the frame back, and takes exactly the
/// bytes of its encoding, whatever follows them in the buffer.
pub proof fn lemma_decode_encode(f: FrameView, key: [u8; 4], cfg: CodecConfig, rest: Seq<u8>)
    requires
        accepts(cfg, f),
    ensures
        decode_frame(encode_frame(f, key) + rest, cfg) == Decoded::Complete(
            f,
            encode_frame(f, key).len(),
        ),
{
    let lb = length_bytes(f.payload.len(), f.masked);
    let body = encode_body(f, key);
    lemma_length_field(f.payload.len(), f.masked, body + rest, first_byte(f));
    lemma_decode_layout(f, key, cfg, rest, lb);
    assert(encode_frame(f, key) + rest =~= seq![first_byte(f)] + lb + (body + rest));
}

/// A frame survives the trip over the wire: decoding its encoding gives the
/// same frame.
pub proof fn lemma_codec_round_trip(f: FrameView, key: [u8; 4], cfg: CodecConfig)
    requires
        accepts(cfg, f),
    ensures
        decode_frame(encode_frame(f, key), cfg) == Decoded::Complete(
            f,
            encode_frame(f, key).len(),
        ),
{
    lemma_decode_encode(f, key, cfg, Seq::empty());
    assert(encode_frame(f, key) + Seq::<u8>::empty() =~= encode_frame(f, key));
}

/// A control frame that declares more than 125 bytes of payload, or that is
/// marked as a fragment, is a protocol violation under every configuration.
pub proof fn lemma_control_frame_rules(buf: Seq<u8>, cfg: CodecConfig)
    requires
        buf.len() >= 2,
        opcode_of(buf[0] % 16) matches Some(op) && op.is_control_spec(),
        buf[0] < 128 || buf[1] % 128 > 125,
    ensures
        decode_frame(buf, cfg) == Decoded::Violation,
{
    reveal(decode_frame);
}

/// Whatever a decoder returns as a frame is a valid frame that the
/// configuration accepts.
pub proof fn lemma_decoded_is_accepted(buf: Seq<u8>, cfg: CodecConfig)
    ensures
        decode_frame(buf, cfg) matches Decoded::Complete(f, n) ==> accepts(cfg, f) && 2 <= n
            <= buf.len(),
{
    reveal(decode_frame);
}

proof fn lemma_be64_bytes_of_value(b: Seq<u8>)
    requires
        b.len() == 8,
    ensures
        be64_bytes(be64_value(b)) == b,
        be64_value(b) < 0x1_0000_0000_0000_0000,
{
    reveal(be64_bytes);
    reveal(be64_value);
    let n = be64_value(b);
    let r1 = (b[0] as nat) * 0x100 + (b[1] as nat);
    let r2 = r1 * 0x100 + (b[2] as nat);
    let r3 = r2 * 0x100 + (b[3] as nat);
    let r4 = r3 * 0x100 + (b[4] as nat);
    let r5 = r4 * 0x100 + (b[5] as nat);
    let r6 = r5 * 0x100 + (b[6] as nat);
    assert(n == r6 * 0x100 + (b[7] as nat));
    assert(n / 0x100 == r6);
    assert(n / 0x1_0000 == r5);
    assert(n / 0x100_0000 == r4);
    assert(n / 0x1_0000_0000 == r3);
    assert(n / 0x100_0000_0000 == r2);
    assert(n / 0x1_0000_0000_0000 == r1);
    assert(n / 0x100_0000_0000_0000 == b[0] as nat);
    assert(be64_bytes(n) =~= b);
}

proof fn lemma_first_byte_of_bits(b0: u8, f: FrameView)
    requires
        opcode_of(b0 % 16) == Some(f.opcode),
        f.fin == (b0 >= 128),
        f.rsv1 == ((b0 / 64) % 2 == 1),
        f.rsv2 == ((b0 / 32) % 2 == 1),
        f.rsv3 == ((b0 / 16) % 2 == 1),
    ensures
        first_byte(f) == b0,
{
    assert(opcode_number(f.opcode) == b0 % 16);
}

proof fn lemma_length_bytes_of_field(buf: Seq<u8>)
    requires
        buf.len() >= 2,
        declared_length(buf) is Length,
    ensures
        ({
            let len = declared_length(buf)->Length_0;
            let at = declared_length(buf)->Length_1;
            &&& 2 <= at <= buf.len()
            &&& length_bytes(len, buf[1] >= 128) == buf.subrange(1, at)
        }),
{
    reveal(length_bytes);
    let len = declared_length(buf)->Length_0;
    let at = declared_length(buf)->Length_1;
    let len7 = buf[1] % 128;
    if len7 < 126 {
        assert(length_bytes(len, buf[1] >= 128) =~= buf.subrange(1, at));
    } else if len7 == 126 {
        assert(length_bytes(len, buf[1] >= 128) =~= buf.subrange(1, at));
    } else {
        lemma_be64_bytes_of_value(buf.subrange(2, 10));
        assert(length_bytes(len, buf[1] >= 128) =~= buf.subrange(1, at));
    }
}

/// A decoder takes nothing but encodings: the bytes that it took for a
/// frame are the encoding of that frame, under the key that they carry.
pub proof fn lemma_decoded_is_encoding(buf: Seq<u8>, cfg: CodecConfig)
    requires
        decode_frame(buf, cfg) is Complete,
    ensures
        exists|key: [u8; 4]|
            buf.subrange(0, decode_frame(buf, cfg)->Complete_1 as int) == #[trigger] encode_frame(
                decode_frame(buf, cfg)->Complete_0,
                key,
            ),
{
    reveal(decode_frame);
    let f = decode_frame(buf, cfg)->Complete_0;
    let used = decode_frame(buf, cfg)->Complete_1 as int;
    let len = declared_length(buf)->Length_0;
    let at = declared_length(buf)->Length_1;
    lemma_first_byte_of_bits(buf[0], f);
    lemma_length_bytes_of_field(buf);
    let key = [buf[at], buf[at + 1], buf[at + 2], buf[at + 3]];
    if f.masked {
        let raw = buf.subrange(at + 4, at + 4 + len);
        lemma_mask_involution(raw, key);
        assert(key_bytes(key) =~= buf.subrange(at, at + 4));
        assert(encode_body(f, key) =~= buf.subrange(at, used));
    } else {
        assert(encode_body(f, key) =~= buf.subrange(at, used));
    }
    assert(buf.subrange(0, used) =~= seq![buf[0]] + buf.subrange(1, at) + buf.subrange(at, used));
    assert(buf.subrange(0, used) == encode_frame(f, key));
}

proof fn lemma_length_field_of_prefix(buf: Seq<u8>, n: int)
    requires
        2 <= n <= buf.len(),
        declared_length(buf) is Length,
    ensures
        n >= declared_length(buf)->Length_1 ==> declared_length(buf.subrange(0, n))
            == declared_length(buf),
        n < declared_length(buf)->Length_1 ==> declared_length(buf.subrange(0, n))
            == DeclaredLength::Incomplete,
{
    let p = buf.subrange(0, n);
    assert(p[1] == buf[1]);
    if n >= 4 {
        assert(p[2] == buf[2]);
        assert(p[3] == buf[3]);
    }
    if n >= 10 {
        assert(p.subrange(2, 10) =~= buf.subrange(2, 10));
    }
}

/// A frame that has arrived only in part is waited for: every proper prefix
/// of the bytes that a decoder takes for a frame decodes as incomplete, and
/// never as a violation.
pub proof fn lemma_partial_frame_waits(buf: Seq<u8>, cfg: CodecConfig, n: int)
    requires
        decode_frame(buf, cfg) is Complete,
        0 <= n < decode_frame(buf, cfg)->Complete_1,
    ensures
        decode_frame(buf.subrange(0, n), cfg) == Decoded::Incomplete,
{
    reveal(decode_frame);
    let p = buf.subrange(0, n);
    if n >= 2 {
        assert(p[0] == buf[0]);
        assert(p[1] == buf[1]);
        lemma_length_field_of_prefix(buf, n);
    }
}

/// The encoding of a frame that has arrived only in part is waited for.
pub proof fn lemma_partial_encoding_waits(f: FrameView, key: [u8; 4], cfg: CodecConfig, n: int)
    requires
        accepts(cfg, f),
        0 <= n < encode_frame(f, key).len(),
    ensures
        decode_frame(encode_frame(f, key).subrange(0, n), cfg) == Decoded::Incomplete,
{
    lemma_codec_round_trip(f, key, cfg);
    lemma_partial_frame_waits(encode_frame(f, key), cfg, n);
}

} // verus!
