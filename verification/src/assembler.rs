//! Putting the fragments of a message together.

use vstd::prelude::*;
use crate::bytes::append_bytes;
use crate::frame::{Frame, FrameView};
use crate::message::{message_of, Message, MessageView};
use crate::protocol::OpCode;
use crate::result::{fails_with, Error, Kind};

verus! {

/// A message in the making: the operation code of its first frame and the
/// bytes received so far.
pub type Partial = Option<(OpCode, Seq<u8>)>;

/// The outcome of handing one frame to the assembler.
pub enum Step {
    /// No message yet; the assembler goes on from the given state.
    Pending(Partial),
    /// The frame completed a message; the assembler is idle again.
    Done(MessageView),
    /// The frame breaks the rules of fragmentation, or completes a text
    /// message that is not valid text.
    Violation,
    /// The message would grow beyond the bound.
    TooBig,
}

/// What becomes of the bytes `data`, received under `opcode`, with the frame
/// that carried the last of them: a message if that frame was final, else a
/// message in the making.
pub open spec fn collect(opcode: OpCode, data: Seq<u8>, fin: bool, max: nat) -> Step {
    if data.len() > max {
        Step::TooBig
    } else if !fin {
        Step::Pending(Some((opcode, data)))
    } else {
        match message_of(opcode, data) {
            Some(m) => Step::Done(m),
            None => Step::Violation,
        }
    }
}

/// One step of assembly. A control frame passes by without effect. A text or
/// binary frame starts a message and may not arrive while another message is
/// in the making; a continuation frame extends the message in the making and
/// may not arrive without one.
pub open spec fn assemble_step(partial: Partial, f: FrameView, max: nat) -> Step {
    if f.opcode.is_control_spec() {
        Step::Pending(partial)
    } else {
        match partial {
            None => if f.opcode == OpCode::Continuation {
                Step::Violation
            } else {
                collect(f.opcode, f.payload, f.fin, max)
            },
            Some((opcode, data)) => if f.opcode == OpCode::Continuation {
                collect(opcode, data + f.payload, f.fin, max)
            } else {
                Step::Violation
            },
        }
    }
}

/// What a run of frames leads to.
pub struct Run {
    /// The state of the assembler at the end.
    pub partial: Partial,
    /// The messages completed, in order.
    pub delivered: Seq<MessageView>,
    /// The failure that ended the run early, if any.
    pub failed: Option<Kind>,
}

/// Hands `frames` to the assembler one after the other, up to the first
/// failure.
pub open spec fn assemble_all(partial: Partial, frames: Seq<FrameView>, max: nat) -> Run
    decreases frames.len(),
{
    if frames.len() == 0 {
        Run { partial, delivered: Seq::empty(), failed: None }
    } else {
        match assemble_step(partial, frames[0], max) {
            Step::Pending(p) => assemble_all(p, frames.drop_first(), max),
            Step::Done(m) => {
                let rest = assemble_all(None, frames.drop_first(), max);
                Run { delivered: seq![m] + rest.delivered, ..rest }
            },
            Step::Violation => Run {
                partial: None,
                delivered: Seq::empty(),
                failed: Some(Kind::ProtocolViolation),
            },
            Step::TooBig => Run {
                partial: None,
                delivered: Seq::empty(),
                failed: Some(Kind::CapacityExceeded),
            },
        }
    }
}

/// The payloads of `frames` one after the other.
pub open spec fn joined_payloads(frames: Seq<FrameView>) -> Seq<u8>
    decreases frames.len(),
{
    if frames.len() == 0 {
        Seq::empty()
    } else {
        frames[0].payload + joined_payloads(frames.drop_first())
    }
}

/// Whether `frames` are continuation frames of which the last one, and no
/// other, is final.
pub open spec fn is_continuation_run(frames: Seq<FrameView>) -> bool {
    &&& frames.len() >= 1
    &&& forall|i: int| 0 <= i < frames.len() ==> (#[trigger] frames[i]).opcode == OpCode::Continuation
    &&& forall|i: int| 0 <= i < frames.len() ==> (#[trigger] frames[i]).fin == (i == frames.len() - 1)
}

/// Whether `frames` carry one message of kind `opcode` in fragments: a first
/// frame under `opcode`, continuation frames after it, and the final mark on
/// the last frame only.
pub open spec fn is_fragmented_message(frames: Seq<FrameView>, opcode: OpCode) -> bool {
    &&& (opcode == OpCode::Text || opcode == OpCode::Binary)
    &&& frames.len() >= 1
    &&& frames[0].opcode == opcode
    &&& forall|i: int| 1 <= i < frames.len() ==> (#[trigger] frames[i]).opcode == OpCode::Continuation
    &&& forall|i: int| 0 <= i < frames.len() ==> (#[trigger] frames[i]).fin == (i == frames.len() - 1)
}

/// The run that one whole message leads to from the idle state.
pub open spec fn single_run(opcode: OpCode, data: Seq<u8>, max: nat) -> Run {
    match collect(opcode, data, true, max) {
        Step::Done(m) => Run { partial: None, delivered: seq![m], failed: None },
        Step::TooBig => Run {
            partial: None,
            delivered: Seq::empty(),
            failed: Some(Kind::CapacityExceeded),
        },
        _ => Run { partial: None, delivered: Seq::empty(), failed: Some(Kind::ProtocolViolation) },
    }
}

proof fn lemma_continuations(opcode: OpCode, data: Seq<u8>, frames: Seq<FrameView>, max: nat)
    requires
        opcode == OpCode::Text || opcode == OpCode::Binary,
        is_continuation_run(frames),
        data.len() <= max,
    ensures
        assemble_all(Some((opcode, data)), frames, max) == single_run(
            opcode,
            data + joined_payloads(frames),
            max,
        ),
    decreases frames.len(),
{
    let f = frames[0];
    let rest = frames.drop_first();
    let grown = data + f.payload;
    assert(f.opcode == OpCode::Continuation);
    if frames.len() == 1 {
        assert(f.fin);
        assert(joined_payloads(rest) =~= Seq::<u8>::empty());
        assert(joined_payloads(frames) =~= f.payload);
        assert(assemble_all(None, rest, max) == (Run {
            partial: None,
            delivered: Seq::empty(),
            failed: None,
        }));
        match collect(opcode, grown, true, max) {
            Step::Done(m) => {
                assert(seq![m] + Seq::<MessageView>::empty() =~= seq![m]);
            },
            _ => {},
        }
    } else {
        assert(!f.fin);
        assert(data + joined_payloads(frames) =~= grown + joined_payloads(rest));
        assert forall|i: int| 0 <= i < rest.len() implies (#[trigger] rest[i]).opcode
            == OpCode::Continuation && rest[i].fin == (i == rest.len() - 1) by {
            assert(rest[i] == frames[i + 1]);
        }
        if grown.len() <= max {
            lemma_continuations(opcode, grown, rest, max);
        } else {
            assert((grown + joined_payloads(rest)).len() > max);
        }
    }
}

/// A message that arrives in fragments is the message that its whole payload
/// would have been in one frame: the same message is delivered, once, after
/// the last fragment and not before; and where the one frame would have been
/// refused, the fragments are refused in the same way.
pub proof fn lemma_fragments_assemble(frames: Seq<FrameView>, opcode: OpCode, max: nat)
    requires
        is_fragmented_message(frames, opcode),
    ensures
        assemble_all(None, frames, max) == single_run(opcode, joined_payloads(frames), max),
        single_run(opcode, joined_payloads(frames), max) == assemble_all(
            None,
            seq![crate::frame::plain_frame(true, opcode, joined_payloads(frames))],
            max,
        ),
{
    let f = frames[0];
    let rest = frames.drop_first();
    let whole = joined_payloads(frames);
    let one = seq![crate::frame::plain_frame(true, opcode, whole)];
    assert(one.drop_first() =~= Seq::<FrameView>::empty());
    assert(assemble_all(None, one.drop_first(), max) == (Run {
        partial: None,
        delivered: Seq::empty(),
        failed: None,
    }));
    match collect(opcode, whole, true, max) {
        Step::Done(m) => {
            assert(seq![m] + Seq::<MessageView>::empty() =~= seq![m]);
        },
        _ => {},
    }
    if frames.len() == 1 {
        assert(joined_payloads(rest) =~= Seq::<u8>::empty());
        assert(whole =~= f.payload);
        assert(assemble_all(None, rest, max) == (Run {
            partial: None,
            delivered: Seq::empty(),
            failed: None,
        }));
    } else {
        assert(!f.fin);
        assert forall|i: int| 0 <= i < rest.len() implies (#[trigger] rest[i]).opcode
            == OpCode::Continuation && rest[i].fin == (i == rest.len() - 1) by {
            assert(rest[i] == frames[i + 1]);
        }
        if f.payload.len() <= max {
            lemma_continuations(opcode, f.payload, rest, max);
        }
    }
}

/// Whether what the assembler returned, and the state it is left in, are
/// those of `step`.
pub open spec fn step_agrees(r: Result<Option<Message>, Error>, left: Partial, step: Step) -> bool {
    match step {
        Step::Pending(p) => r matches Ok(None) && left == p,
        Step::Done(m) => r matches Ok(Some(msg)) && msg@ == m && left is None,
        Step::Violation => fails_with(r, Kind::ProtocolViolation) && left is None,
        Step::TooBig => fails_with(r, Kind::CapacityExceeded) && left is None,
    }
}

/// Puts the fragments of one message after another together, one message at
/// a time, within a bound on the size of a message.
pub struct MessageAssembler {
    opcode: Option<OpCode>,
    data: Vec<u8>,
    max_message: usize,
}

impl MessageAssembler {
    #[verifier::type_invariant]
    closed spec fn inv(self) -> bool {
        &&& self.data@.len() <= self.max_message
        &&& self.opcode matches Some(op) ==> op == OpCode::Text || op == OpCode::Binary
        &&& self.opcode is None ==> self.data@.len() == 0
    }

    /// The message in the making, if any.
    pub closed spec fn partial(self) -> Partial {
        match self.opcode {
            Some(op) => Some((op, self.data@)),
            None => None,
        }
    }

    /// The largest message, in bytes, that is put together.
    pub closed spec fn max(self) -> nat {
        self.max_message as nat
    }

    /// An idle assembler with the given bound.
    pub fn new(max_message: usize) -> (r: MessageAssembler)
        ensures
            r.partial() is None,
            r.max() == max_message,
    {
        MessageAssembler { opcode: None, data: Vec::new(), max_message }
    }

    /// Whether a message is in the making.
    pub fn in_progress(&self) -> (r: bool)
        ensures
            r == self.partial() is Some,
    {
        self.opcode.is_some()
    }

    /// Forgets the message in the making.
    pub fn reset(&mut self)
        ensures
            final(self).partial() is None,
            final(self).max() == old(self).max(),
    {
        proof {
            use_type_invariant(&*self);
        }
        *self = MessageAssembler { opcode: None, data: Vec::new(), max_message: self.max_message };
    }

    /// Takes `data` as all the bytes so far of a message of kind `opcode`.
    fn collect(&mut self, opcode: OpCode, data: Vec<u8>, fin: bool) -> (r: Result<
        Option<Message>,
        Error,
    >)
        requires
            opcode == OpCode::Text || opcode == OpCode::Binary,
        ensures
            step_agrees(r, final(self).partial(), collect(opcode, data@, fin, old(self).max())),
            final(self).max() == old(self).max(),
    {
        let max: usize = self.max_message;
        if data.len() > max {
            *self = MessageAssembler { opcode: None, data: Vec::new(), max_message: max };
            Err(Error::of(Kind::CapacityExceeded))
        } else if !fin {
            *self = MessageAssembler { opcode: Some(opcode), data, max_message: max };
            Ok(None)
        } else {
            *self = MessageAssembler { opcode: None, data: Vec::new(), max_message: max };
            match Message::from_bytes(opcode, data) {
                Some(m) => Ok(Some(m)),
                None => Err(Error::of(Kind::ProtocolViolation)),
            }
        }
    }

    /// Hands the next frame to the assembler, which returns the message that
    /// the frame completes, if it completes one.
    pub fn push(&mut self, frame: Frame) -> (r: Result<Option<Message>, Error>)
        ensures
            step_agrees(
                r,
                final(self).partial(),
                assemble_step(old(self).partial(), frame@, old(self).max()),
            ),
            final(self).max() == old(self).max(),
    {
        proof {
            use_type_invariant(&*self);
        }
        if frame.is_control() {
            return Ok(None);
        }
        let opcode: OpCode = frame.opcode();
        let fin: bool = frame.is_final();
        let max: usize = self.max_message;
        match self.opcode {
            None => {
                if opcode == OpCode::Continuation {
                    Err(Error::of(Kind::ProtocolViolation))
                } else {
                    self.collect(opcode, frame.into_data(), fin)
                }
            },
            Some(first) => {
                if opcode == OpCode::Continuation {
                    let mut grown: Vec<u8> = Vec::new();
                    core::mem::swap(&mut self.data, &mut grown);
                    if frame.len() > max - grown.len() {
                        *self = MessageAssembler { opcode: None, data: Vec::new(), max_message: max };
                        Err(Error::of(Kind::CapacityExceeded))
                    } else {
                        append_bytes(&mut grown, frame.payload().as_slice());
                        self.collect(first, grown, fin)
                    }
                } else {
                    *self = MessageAssembler { opcode: None, data: Vec::new(), max_message: max };
                    Err(Error::of(Kind::ProtocolViolation))
                }
            },
        }
    }
}

} // verus!
