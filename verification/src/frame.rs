//! Frames and the codec between frames and bytes on the wire.

use vstd::prelude::*;
use crate::protocol::OpCode;
use crate::result::{fails_with, Error, Kind};

verus! {

/// The largest payload that a control frame may carry.
pub const MAX_CONTROL_PAYLOAD: usize = 125;

/// The mathematical value of a frame. The payload is the logical one: what
/// the application sees, not the masked bytes on the wire.
pub struct FrameView {
    pub fin: bool,
    pub rsv1: bool,
    pub rsv2: bool,
    pub rsv3: bool,
    pub opcode: OpCode,
    pub masked: bool,
    pub payload: Seq<u8>,
}

impl FrameView {
    /// A control frame is never a fragment and carries at most 125 bytes.
    pub open spec fn is_valid(self) -> bool {
        self.opcode.is_control_spec() ==> self.fin && self.payload.len() <= MAX_CONTROL_PAYLOAD
    }

    /// Whether any of the three reserved bits is set.
    pub open spec fn has_reserved_bits(self) -> bool {
        self.rsv1 || self.rsv2 || self.rsv3
    }
}

/// Whether the fields describe a frame that may exist.
pub open spec fn frame_fields_valid(fin: bool, opcode: OpCode, len: nat) -> bool {
    opcode.is_control_spec() ==> fin && len <= MAX_CONTROL_PAYLOAD
}

/// The unmasked frame with the given fields and no reserved bit.
pub open spec fn plain_frame(fin: bool, opcode: OpCode, payload: Seq<u8>) -> FrameView {
    FrameView { fin, rsv1: false, rsv2: false, rsv3: false, opcode, masked: false, payload }
}

/// A frame: the smallest unit on the wire. Its fields are reached through
/// methods, so that every frame in a running program is a valid one.
#[derive(Debug, PartialEq, Eq)]
pub struct Frame {
    fin: bool,
    rsv1: bool,
    rsv2: bool,
    rsv3: bool,
    opcode: OpCode,
    masked: bool,
    payload: Vec<u8>,
}

impl View for Frame {
    type V = FrameView;

    closed spec fn view(&self) -> FrameView {
        FrameView {
            fin: self.fin,
            rsv1: self.rsv1,
            rsv2: self.rsv2,
            rsv3: self.rsv3,
            opcode: self.opcode,
            masked: self.masked,
            payload: self.payload@,
        }
    }
}

impl Clone for Frame {
    fn clone(&self) -> (r: Frame)
        ensures
            r@ == self@,
    {
        proof {
            use_type_invariant(self);
        }
        Frame {
            fin: self.fin,
            rsv1: self.rsv1,
            rsv2: self.rsv2,
            rsv3: self.rsv3,
            opcode: self.opcode,
            masked: self.masked,
            payload: self.payload.clone(),
        }
    }
}

impl Frame {
    #[verifier::type_invariant]
    closed spec fn inv(self) -> bool {
        self@.is_valid()
    }

    /// A frame with the given fields and no reserved bit, unmasked. A control
    /// frame that would be a fragment or carry more than 125 bytes is refused
    /// as a protocol violation.
    pub fn new(fin: bool, opcode: OpCode, payload: Vec<u8>) -> (r: Result<Frame, Error>)
        ensures
            frame_fields_valid(fin, opcode, payload@.len()) ==> (r matches Ok(f) && f@
                == plain_frame(fin, opcode, payload@)),
            !frame_fields_valid(fin, opcode, payload@.len()) ==> fails_with(
                r,
                Kind::ProtocolViolation,
            ),
    {
        if opcode.is_control() && (!fin || payload.len() > MAX_CONTROL_PAYLOAD) {
            Err(Error::of(Kind::ProtocolViolation))
        } else {
            Ok(Frame { fin, rsv1: false, rsv2: false, rsv3: false, opcode, masked: false, payload })
        }
    }

    /// A text frame, final or not.
    pub fn text(payload: Vec<u8>, fin: bool) -> (r: Frame)
        ensures
            r@ == plain_frame(fin, OpCode::Text, payload@),
    {
        Frame::message(payload, OpCode::Text, fin)
    }

    /// A binary frame, final or not.
    pub fn binary(payload: Vec<u8>, fin: bool) -> (r: Frame)
        ensures
            r@ == plain_frame(fin, OpCode::Binary, payload@),
    {
        Frame::message(payload, OpCode::Binary, fin)
    }

    /// A continuation frame, final or not.
    pub fn continuation(payload: Vec<u8>, fin: bool) -> (r: Frame)
        ensures
            r@ == plain_frame(fin, OpCode::Continuation, payload@),
    {
        Frame::message(payload, OpCode::Continuation, fin)
    }

    /// A data frame: text or binary content, or a continuation of either.
    pub(crate) fn message(payload: Vec<u8>, opcode: OpCode, fin: bool) -> (r: Frame)
        requires
            !opcode.is_control_spec(),
        ensures
            r@ == plain_frame(fin, opcode, payload@),
    {
        Frame { fin, rsv1: false, rsv2: false, rsv3: false, opcode, masked: false, payload }
    }

    /// A control frame with the given payload.
    pub(crate) fn control(opcode: OpCode, payload: Vec<u8>) -> (r: Frame)
        requires
            opcode.is_control_spec(),
            payload@.len() <= MAX_CONTROL_PAYLOAD,
        ensures
            r@ == plain_frame(true, opcode, payload@),
    {
        Frame { fin: true, rsv1: false, rsv2: false, rsv3: false, opcode, masked: false, payload }
    }

    /// The frame with exactly these fields, which make a valid frame.
    pub(crate) fn from_parts(
        fin: bool,
        rsv1: bool,
        rsv2: bool,
        rsv3: bool,
        opcode: OpCode,
        masked: bool,
        payload: Vec<u8>,
    ) -> (r: Frame)
        requires
            frame_fields_valid(fin, opcode, payload@.len()),
        ensures
            r@ == (FrameView { fin, rsv1, rsv2, rsv3, opcode, masked, payload: payload@ }),
    {
        Frame { fin, rsv1, rsv2, rsv3, opcode, masked, payload }
    }

    /// Every frame in a running program is valid.
    pub fn check_valid(&self)
        ensures
            self@.is_valid(),
    {
        proof {
            use_type_invariant(self);
        }
    }

    /// Whether this is the last frame of its message.
    pub fn is_final(&self) -> (r: bool)
        ensures
            r == self@.fin,
    {
        self.fin
    }

    /// Whether the first reserved bit is set.
    pub fn has_rsv1(&self) -> (r: bool)
        ensures
            r == self@.rsv1,
    {
        self.rsv1
    }

    /// Whether the second reserved bit is set.
    pub fn has_rsv2(&self) -> (r: bool)
        ensures
            r == self@.rsv2,
    {
        self.rsv2
    }

    /// Whether the third reserved bit is set.
    pub fn has_rsv3(&self) -> (r: bool)
        ensures
            r == self@.rsv3,
    {
        self.rsv3
    }

    /// What the frame carries.
    pub fn opcode(&self) -> (r: OpCode)
        ensures
            r == self@.opcode,
    {
        self.opcode
    }

    /// Whether the frame manages the connection rather than carries data.
    pub fn is_control(&self) -> (r: bool)
        ensures
            r == self@.opcode.is_control_spec(),
            r ==> self@.fin && self@.payload.len() <= MAX_CONTROL_PAYLOAD,
    {
        proof {
            use_type_invariant(self);
        }
        self.opcode.is_control()
    }

    /// Whether the frame is masked on the wire.
    pub fn is_masked(&self) -> (r: bool)
        ensures
            r == self@.masked,
    {
        self.masked
    }

    /// The payload, unmasked.
    pub fn payload(&self) -> (r: &Vec<u8>)
        ensures
            r@ == self@.payload,
    {
        &self.payload
    }

    /// The length of the payload.
    pub fn len(&self) -> (r: usize)
        ensures
            r == self@.payload.len(),
    {
        self.payload.len()
    }

    /// Gives up the frame for its payload.
    pub fn into_data(self) -> (r: Vec<u8>)
        ensures
            r@ == self@.payload,
    {
        self.payload
    }

    /// Sets or clears the first reserved bit.
    pub fn set_rsv1(&mut self, on: bool)
        ensures
            final(self)@ == (FrameView { rsv1: on, ..old(self)@ }),
    {
        proof {
            use_type_invariant(&*self);
        }
        self.rsv1 = on;
    }

    /// Sets or clears the second reserved bit.
    pub fn set_rsv2(&mut self, on: bool)
        ensures
            final(self)@ == (FrameView { rsv2: on, ..old(self)@ }),
    {
        proof {
            use_type_invariant(&*self);
        }
        self.rsv2 = on;
    }

    /// Sets or clears the third reserved bit.
    pub fn set_rsv3(&mut self, on: bool)
        ensures
            final(self)@ == (FrameView { rsv3: on, ..old(self)@ }),
    {
        proof {
            use_type_invariant(&*self);
        }
        self.rsv3 = on;
    }

    /// Says whether the frame is to be masked on the wire.
    pub fn set_masked(&mut self, on: bool)
        ensures
            final(self)@ == (FrameView { masked: on, ..old(self)@ }),
    {
        proof {
            use_type_invariant(&*self);
        }
        self.masked = on;
    }
}

} // verus!
