//! Where a client connects to: what the engine reads from a parsed URL.

use vstd::prelude::*;
use crate::bytes::{ascii, bytes_of, eq_bytes};

verus! {

/// A parsed URL of the `url` crate.
#[verifier::external_type_specification]
#[verifier::external_body]
pub struct ExUrl(url::Url);

/// `Url::host_str`: the host of the URL as text, if it has one.
pub assume_specification[ url::Url::host_str ](url: &url::Url) -> Option<&str>;

/// `Url::port_or_known_default`: the port of the URL, or the usual port of
/// its scheme where the URL names none and the scheme has one.
pub assume_specification[ url::Url::port_or_known_default ](url: &url::Url) -> Option<u16>;

/// `Url::path`: the path of the URL.
pub assume_specification[ url::Url::path ](url: &url::Url) -> &str;

/// `Url::query`: the query of the URL, without the question mark before it.
pub assume_specification[ url::Url::query ](url: &url::Url) -> Option<&str>;

/// `Url::scheme`: the scheme of the URL, in lower case and without the colon.
pub assume_specification[ url::Url::scheme ](url: &url::Url) -> &str;

/// The parts of a URL that the engine reads, as plain values.
#[derive(Clone, Debug, PartialEq, Eq)]
pub struct Target {
    /// The scheme, without the colon.
    pub scheme: Vec<u8>,
    /// The host, if the URL has one.
    pub host: Option<Vec<u8>>,
    /// The port, if the URL names one or its scheme has a usual one.
    pub port: Option<u16>,
    /// The path.
    pub path: Vec<u8>,
    /// The query, without the question mark, if the URL has one.
    pub query: Option<Vec<u8>>,
}

/// The mathematical value of a [`Target`].
pub struct TargetView {
    pub scheme: Seq<u8>,
    pub host: Option<Seq<u8>>,
    pub port: Option<u16>,
    pub path: Seq<u8>,
    pub query: Option<Seq<u8>>,
}

/// The bytes of a byte string that may be absent.
pub open spec fn optional_bytes(bytes: Option<Vec<u8>>) -> Option<Seq<u8>> {
    match bytes {
        Some(b) => Some(b@),
        None => None,
    }
}

impl View for Target {
    type V = TargetView;

    open spec fn view(&self) -> TargetView {
        TargetView {
            scheme: self.scheme@,
            host: optional_bytes(self.host),
            port: self.port,
            path: self.path@,
            query: optional_bytes(self.query),
        }
    }
}

/// The bytes of a text that may be absent.
fn optional_text(text: Option<&str>) -> (r: Option<Vec<u8>>)
    ensures
        match text {
            Some(t) => optional_bytes(r) == Some(ascii(t@)),
            None => r is None,
        },
{
    match text {
        Some(t) => Some(bytes_of(t)),
        None => None,
    }
}

impl Target {
    /// The parts of `url`, each as the `url` crate gives it.
    pub fn of_url(url: &url::Url) -> (r: Target) {
        Target {
            scheme: bytes_of(url.scheme()),
            host: optional_text(url.host_str()),
            port: url.port_or_known_default(),
            path: bytes_of(url.path()),
            query: optional_text(url.query()),
        }
    }
}

/// What carries a connection: a plain socket, or a socket under TLS.
#[derive(Clone, Copy, Debug, PartialEq, Eq, Structural)]
pub enum Transport {
    Plain,
    Tls,
}

/// The transport that a scheme asks for: a plain socket for `ws`, TLS for
/// `wss`, and none for any other scheme.
pub open spec fn transport_for(scheme: Seq<u8>) -> Option<Transport> {
    if scheme == ascii("ws"@) {
        Some(Transport::Plain)
    } else if scheme == ascii("wss"@) {
        Some(Transport::Tls)
    } else {
        None
    }
}

/// The port that a transport uses where the URL names none.
pub open spec fn usual_port(transport: Transport) -> u16 {
    match transport {
        Transport::Plain => 80,
        Transport::Tls => 443,
    }
}

impl Transport {
    /// The transport that a scheme asks for.
    pub fn of_scheme(scheme: &[u8]) -> (r: Option<Transport>)
        ensures
            r == transport_for(scheme@),
    {
        let plain = bytes_of("ws");
        let tls = bytes_of("wss");
        if eq_bytes(scheme, plain.as_slice()) {
            Some(Transport::Plain)
        } else if eq_bytes(scheme, tls.as_slice()) {
            Some(Transport::Tls)
        } else {
            None
        }
    }

    /// The transport that the scheme of a target asks for.
    pub fn of_target(target: &Target) -> (r: Option<Transport>)
        ensures
            r == transport_for(target@.scheme),
    {
        Transport::of_scheme(target.scheme.as_slice())
    }

    /// The transport that the scheme of `url` asks for.
    pub fn of_url(url: &url::Url) -> (r: Option<Transport>) {
        Transport::of_target(&Target::of_url(url))
    }

    /// The port that the transport uses where the URL names none.
    pub fn port(self) -> (r: u16)
        ensures
            r == usual_port(self),
    {
        match self {
            Transport::Plain => 80,
            Transport::Tls => 443,
        }
    }
}

} // verus!
