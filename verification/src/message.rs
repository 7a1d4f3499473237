//! Messages: what the application sends and receives.

use vstd::prelude::*;
use vstd::utf8::{decode_utf8, encode_utf8, valid_utf8};
use crate::bytes::bytes_of;
use crate::protocol::OpCode;

verus! {

/// A complete message: text, or bytes that the engine does not interpret.
#[derive(Debug, PartialEq, Eq)]
pub enum Message {
    Text(String),
    Binary(Vec<u8>),
}

/// The mathematical value of a [`Message`].
pub enum MessageView {
    Text(Seq<char>),
    Binary(Seq<u8>),
}

impl View for Message {
    type V = MessageView;

    open spec fn view(&self) -> MessageView {
        match self {
            Message::Text(s) => MessageView::Text(s@),
            Message::Binary(b) => MessageView::Binary(b@),
        }
    }
}

impl MessageView {
    /// The operation code under which the message travels.
    pub open spec fn opcode(self) -> OpCode {
        match self {
            MessageView::Text(_) => OpCode::Text,
            MessageView::Binary(_) => OpCode::Binary,
        }
    }

    /// The bytes that the message travels as: text in UTF-8.
    pub open spec fn bytes(self) -> Seq<u8> {
        match self {
            MessageView::Text(s) => encode_utf8(s),
            MessageView::Binary(b) => b,
        }
    }
}

/// The message that `bytes` received under `opcode` make up: text only if the
/// bytes are valid UTF-8, and no message under any other operation code than
/// text and binary.
pub open spec fn message_of(opcode: OpCode, bytes: Seq<u8>) -> Option<MessageView> {
    match opcode {
        OpCode::Text => if valid_utf8(bytes) {
            Some(MessageView::Text(decode_utf8(bytes)))
        } else {
            None
        },
        OpCode::Binary => Some(MessageView::Binary(bytes)),
        _ => None,
    }
}

/// `String::from_utf8` of the standard library: the string whose UTF-8
/// encoding is `bytes`, or nothing when the bytes are not valid UTF-8.
#[verifier::external_body]
pub(crate) fn string_from_utf8(bytes: Vec<u8>) -> (r: Option<String>)
    ensures
        r is Some <==> valid_utf8(bytes@),
        r matches Some(s) ==> s@ == decode_utf8(bytes@),
{
    match String::from_utf8(bytes) {
        Ok(text) => Some(text),
        Err(_) => None,
    }
}

impl Message {
    /// A text message.
    pub fn text(s: String) -> (r: Message)
        ensures
            r@ == MessageView::Text(s@),
    {
        Message::Text(s)
    }

    /// A binary message.
    pub fn binary(data: Vec<u8>) -> (r: Message)
        ensures
            r@ == MessageView::Binary(data@),
    {
        Message::Binary(data)
    }

    /// The message that `bytes` received under `opcode` make up, if any.
    pub fn from_bytes(opcode: OpCode, bytes: Vec<u8>) -> (r: Option<Message>)
        ensures
            r is Some == message_of(opcode, bytes@) is Some,
            r matches Some(m) ==> Some(m@) == message_of(opcode, bytes@),
    {
        match opcode {
            OpCode::Text => match string_from_utf8(bytes) {
                Some(s) => Some(Message::Text(s)),
                None => None,
            },
            OpCode::Binary => Some(Message::Binary(bytes)),
            _ => None,
        }
    }

    /// Whether the message is text.
    pub fn is_text(&self) -> (r: bool)
        ensures
            r == (self@ is Text),
    {
        match self {
            Message::Text(_) => true,
            Message::Binary(_) => false,
        }
    }

    /// Whether the message is bytes that the engine does not interpret.
    pub fn is_binary(&self) -> (r: bool)
        ensures
            r == (self@ is Binary),
    {
        match self {
            Message::Text(_) => false,
            Message::Binary(_) => true,
        }
    }

    /// The operation code under which the message travels.
    pub fn opcode(&self) -> (r: OpCode)
        ensures
            r == self@.opcode(),
            !r.is_control_spec(),
    {
        match self {
            Message::Text(_) => OpCode::Text,
            Message::Binary(_) => OpCode::Binary,
        }
    }

    /// The number of bytes that the message travels as.
    pub fn len(&self) -> (r: usize)
        ensures
            r == self@.bytes().len(),
    {
        match self {
            Message::Text(s) => s.as_str().as_bytes().len(),
            Message::Binary(b) => b.len(),
        }
    }

    /// Gives up the message for the bytes that it travels as.
    pub fn into_data(self) -> (r: Vec<u8>)
        ensures
            r@ == self@.bytes(),
    {
        match self {
            Message::Text(s) => bytes_of(s.as_str()),
            Message::Binary(b) => b,
        }
    }
}

/// A message is read back from the bytes that it travels as.
pub proof fn lemma_message_round_trip(m: MessageView)
    ensures
        message_of(m.opcode(), m.bytes()) == Some(m),
{
    match m {
        MessageView::Text(s) => {
            vstd::utf8::encode_utf8_valid_utf8(s);
            vstd::utf8::encode_utf8_decode_utf8(s);
        },
        MessageView::Binary(_) => {},
    }
}

} // verus!
