//! The application's side of a connection: the hooks that the engine calls,
//! each with a default that keeps to the protocol.

use vstd::prelude::*;
use crate::bytes::ascii;
use crate::frame::Frame;
use crate::handshake::{
    is_client_request, request_acceptable, server_response, Handshake, Request, Response,
};
use crate::http::lookup;
use crate::message::Message;
use crate::protocol::CloseCode;
use crate::result::{fails_with, plain_error, Error, ErrorView, Kind};
use crate::token::{accept_token, TOKEN_LEN};

verus! {

/// A TLS session of the `openssl` crate, ready to wrap a socket.
#[verifier::external_type_specification]
#[verifier::external_body]
pub struct ExSsl(openssl::ssl::Ssl);

/// A TLS context of the `openssl` crate.
#[verifier::external_type_specification]
#[verifier::external_body]
pub struct ExSslContext(openssl::ssl::SslContext);

/// The builder of a TLS context of the `openssl` crate.
#[verifier::external_type_specification]
#[verifier::external_body]
pub struct ExSslContextBuilder(openssl::ssl::SslContextBuilder);

/// The choice of protocol versions of the `openssl` crate.
#[verifier::external_type_specification]
#[verifier::external_body]
pub struct ExSslMethod(openssl::ssl::SslMethod);

/// The errors that OpenSSL left behind.
#[verifier::external_type_specification]
#[verifier::external_body]
pub struct ExErrorStack(openssl::error::ErrorStack);

/// `SslMethod::tls`: all versions of TLS.
pub assume_specification[ openssl::ssl::SslMethod::tls ]() -> openssl::ssl::SslMethod;

/// `SslContext::builder`: a builder for a context, or the errors of OpenSSL.
pub assume_specification[ openssl::ssl::SslContext::builder ](
    method: openssl::ssl::SslMethod,
) -> Result<openssl::ssl::SslContextBuilder, openssl::error::ErrorStack>;

/// `SslContextBuilder::build`: the context that was built.
pub assume_specification[ openssl::ssl::SslContextBuilder::build ](
    builder: openssl::ssl::SslContextBuilder,
) -> openssl::ssl::SslContext;

/// `Ssl::new`: a session of the context, or the errors of OpenSSL.
#[verifier::external_body]
fn new_ssl(context: &openssl::ssl::SslContext) -> Result<
    openssl::ssl::Ssl,
    openssl::error::ErrorStack,
> {
    openssl::ssl::Ssl::new(context)
}

/// The errors of OpenSSL as text, through their `Display`.
#[verifier::external_body]
fn error_stack_text(errors: &openssl::error::ErrorStack) -> String {
    errors.to_string()
}

/// What the engine does with a frame unless the handler says otherwise: a
/// frame with a reserved bit set is a protocol violation, since no extension
/// is there to claim it; any other frame passes unchanged.
pub fn reject_reserved_bits(frame: Frame) -> (r: Result<Option<Frame>, Error>)
    ensures
        frame@.has_reserved_bits() ==> fails_with(r, Kind::ProtocolViolation),
        !frame@.has_reserved_bits() ==> r == Ok::<Option<Frame>, Error>(Some(frame)),
{
    if frame.has_rsv1() || frame.has_rsv2() || frame.has_rsv3() {
        Err(Error::of(Kind::ProtocolViolation))
    } else {
        Ok(Some(frame))
    }
}

/// Whether an error is the socket fault that carries the number `os_code`,
/// where there is such a number.
pub open spec fn is_reset(err: ErrorView, os_code: Option<i32>) -> bool {
    err.kind == Kind::IoFailure && err.os_error is Some && err.os_error == os_code
}

/// Whether `err` is the socket fault numbered `os_code`. This is the one
/// test of what is passed over in silence: the engine makes it with the
/// number that the settings name for a reset by the peer, before it tells
/// the handler of an error.
pub fn is_ignorable(err: &Error, os_code: Option<i32>) -> (r: bool)
    ensures
        r == is_reset(err@, os_code),
{
    match os_code {
        Some(n) => err.is_os_error(n),
        None => false,
    }
}

/// What becomes of an answer of OpenSSL: what it made stays what it is, and
/// what it refused is an internal error with OpenSSL's words.
pub fn openssl_outcome<T>(made: Result<T, openssl::error::ErrorStack>) -> (r: Result<T, Error>)
    ensures
        made matches Ok(value) ==> r == Ok::<T, Error>(value),
        made is Err ==> (r matches Err(e) && e@.kind == Kind::Internal && e@.os_error is None),
{
    match made {
        Ok(value) => Ok(value),
        Err(errors) => Err(Error::new(Kind::Internal, error_stack_text(&errors).as_str())),
    }
}

/// A TLS session with OpenSSL's defaults for all versions of TLS. What
/// OpenSSL refuses comes back as an internal error with OpenSSL's words.
pub fn default_ssl() -> (r: Result<openssl::ssl::Ssl, Error>)
    ensures
        r matches Err(e) ==> e@.kind == Kind::Internal && e@.os_error is None,
{
    let builder = match openssl_outcome(
        openssl::ssl::SslContext::builder(openssl::ssl::SslMethod::tls()),
    ) {
        Ok(b) => b,
        Err(e) => {
            return Err(e);
        },
    };
    let context = builder.build();
    openssl_outcome(new_ssl(&context))
}

/// The hooks of a connection. One handler belongs to one connection. Every
/// hook has a default, so that a handler says only what it cares about. A
/// default leaves the handler as it is.
pub trait Handler: Sized {
    /// A request to shut all connections down has come.
    fn on_shutdown(&mut self)
        default_ensures
            *final(self) == *old(self),
    {
    }

    /// The opening exchange succeeded and the connection is open. A failure
    /// closes the connection.
    fn on_open(&mut self, shake: Handshake) -> (r: Result<(), Error>)
        default_ensures
            *final(self) == *old(self),
            r is Ok,
    {
        Ok(())
    }

    /// A message arrived. A failure closes the connection.
    fn on_message(&mut self, msg: Message) -> (r: Result<(), Error>)
        default_ensures
            *final(self) == *old(self),
            r is Ok,
    {
        Ok(())
    }

    /// The connection has closed, and the peer gave this code and reason.
    fn on_close(&mut self, code: CloseCode, reason: &str)
        default_ensures
            *final(self) == *old(self),
    {
    }

    /// An error was met that the settings do not pass over. Returns the
    /// error if it is still to be reported. By default every error is.
    fn on_error(&mut self, err: Error) -> (r: Option<Error>)
        default_ensures
            *final(self) == *old(self),
            r == Some(err),
    {
        Some(err)
    }

    /// A server received the opening request and answers it. The default
    /// answers as the protocol asks; a handler that chooses a subprotocol or
    /// extensions starts from `Response::from_request` and adds to it.
    fn on_request(&mut self, req: &Request) -> (r: Result<Response, Error>)
        default_ensures
            *final(self) == *old(self),
            request_acceptable(req@) ==> (r matches Ok(res) && res@ == server_response(
                lookup(req@.headers, ascii("Sec-WebSocket-Key"@)).unwrap(),
            ) && accept_token(lookup(req@.headers, ascii("Sec-WebSocket-Key"@)).unwrap()).len()
                == TOKEN_LEN),
            !request_acceptable(req@) ==> fails_with(r, Kind::HandshakeFailure),
    {
        Response::from_request(req)
    }

    /// A client received the answer to its opening request. A failure ends
    /// the connection before it opens.
    fn on_response(&mut self, res: &Response) -> (r: Result<(), Error>)
        default_ensures
            *final(self) == *old(self),
            r is Ok,
    {
        Ok(())
    }

    /// A frame arrived and is valid. The hook passes it on, replaces it, or
    /// returns nothing to have the connection forget it. By default a frame
    /// with a reserved bit set is refused.
    fn on_frame(&mut self, frame: Frame) -> (r: Result<Option<Frame>, Error>)
        default_ensures
            *final(self) == *old(self),
            frame@.has_reserved_bits() ==> fails_with(r, Kind::ProtocolViolation),
            !frame@.has_reserved_bits() ==> r == Ok::<Option<Frame>, Error>(Some(frame)),
    {
        reject_reserved_bits(frame)
    }

    /// A frame is about to be sent. The hook passes it on, replaces it, or
    /// returns nothing to have it not sent. By default a frame with a
    /// reserved bit set is refused.
    fn on_send_frame(&mut self, frame: Frame) -> (r: Result<Option<Frame>, Error>)
        default_ensures
            *final(self) == *old(self),
            frame@.has_reserved_bits() ==> fails_with(r, Kind::ProtocolViolation),
            !frame@.has_reserved_bits() ==> r == Ok::<Option<Frame>, Error>(Some(frame)),
    {
        reject_reserved_bits(frame)
    }

    /// A client builds its opening request. A handler that offers
    /// subprotocols or extensions starts from `Request::from_url` and adds
    /// to it.
    fn build_request(&mut self, url: &url::Url) -> (r: Result<Request, Error>)
        default_ensures
            *final(self) == *old(self),
            r matches Ok(req) ==> is_client_request(req@),
            r matches Err(e) ==> e@ == plain_error(Kind::Internal),
    {
        Request::from_url(url)
    }

    /// A TLS session for a connection over TLS.
    fn build_ssl(&mut self) -> (r: Result<openssl::ssl::Ssl, Error>)
        default_ensures
            *final(self) == *old(self),
            r matches Err(e) ==> e@.kind == Kind::Internal && e@.os_error is None,
    {
        default_ssl()
    }
}

/// A handler made of a function on messages: the function is the message
/// hook, and every other hook is the default.
pub struct MessageFn<F: Fn(Message) -> Result<(), Error>> {
    f: F,
}

impl<F: Fn(Message) -> Result<(), Error>> MessageFn<F> {
    #[verifier::type_invariant]
    closed spec fn inv(self) -> bool {
        forall|m: Message| call_requires(self.f, (m,))
    }

    /// The function that is the message hook.
    pub closed spec fn function(self) -> F {
        self.f
    }

    /// Wraps a function that takes every message.
    pub fn new(f: F) -> (r: Self)
        requires
            forall|m: Message| call_requires(f, (m,)),
        ensures
            r.function() == f,
    {
        MessageFn { f }
    }
}

impl<F: Fn(Message) -> Result<(), Error>> Handler for MessageFn<F> {
    fn on_message(&mut self, msg: Message) -> (r: Result<(), Error>)
        ensures
            call_ensures(old(self).function(), (msg,), r),
            final(self).function() == old(self).function(),
    {
        proof {
            use_type_invariant(&*self);
        }
        (self.f)(msg)
    }
}

/// The handler whose every hook is the default.
pub struct DefaultHandler;

impl Handler for DefaultHandler {

}

} // verus!
