//! The opening exchange: the client's request, the server's response, and the
//! relation between the key of the one and the accept token of the other.

use vstd::prelude::*;
use crate::base64::encode_base64;
use crate::bytes::{
    append_bytes, append_decimal, append_text, ascii, bytes_of, copy_range, decimal, eq_bytes,
    eq_ignoring_case, find_byte, position_of, same_ignoring_case,
};
use crate::http::{
    append_headers, find_header, find_line_end, format_headers, header_travels, header_views,
    line_len, lookup, parse_headers, read_headers, Header, HeaderBlock, HeaderView, COLON, CR, LF,
    SPACE,
};
use crate::result::{fails_with, Error, Kind};
use crate::target::{optional_bytes, Target, TargetView};
use crate::token::{
    TOKEN_LEN,
    accept_token, accept_token_for, check_key, is_key, lemma_encoded_nonce_is_key, random_bytes,
    sha1_digest, token_input,
};

verus! {

/// The mathematical value of a [`Request`].
pub struct RequestView {
    pub resource: Seq<u8>,
    pub headers: Seq<HeaderView>,
}

/// The client's request: the resource it asks for and its headers.
#[derive(Debug, PartialEq, Eq)]
pub struct Request {
    pub resource: Vec<u8>,
    pub headers: Vec<Header>,
}

impl View for Request {
    type V = RequestView;

    open spec fn view(&self) -> RequestView {
        RequestView { resource: self.resource@, headers: header_views(self.headers@) }
    }
}

/// The mathematical value of a [`Response`].
pub struct ResponseView {
    pub status: u16,
    pub reason: Seq<u8>,
    pub headers: Seq<HeaderView>,
}

/// The server's response: the status, the words that go with it, and the
/// headers.
#[derive(Debug, PartialEq, Eq)]
pub struct Response {
    pub status: u16,
    pub reason: Vec<u8>,
    pub headers: Vec<Header>,
}

impl View for Response {
    type V = ResponseView;

    open spec fn view(&self) -> ResponseView {
        ResponseView {
            status: self.status,
            reason: self.reason@,
            headers: header_views(self.headers@),
        }
    }
}

/// A completed opening exchange, and the two ends of the connection where
/// they are known.
#[derive(Debug, PartialEq, Eq)]
pub struct Handshake {
    pub request: Request,
    pub response: Response,
    pub peer_addr: Option<String>,
    pub local_addr: Option<String>,
}

/// A header whose name and value are given as text.
pub open spec fn text_header(name: Seq<char>, value: Seq<char>) -> HeaderView {
    HeaderView { name: ascii(name), value: ascii(value) }
}

/// A header whose name is given as text.
pub open spec fn named_header(name: Seq<char>, value: Seq<u8>) -> HeaderView {
    HeaderView { name: ascii(name), value }
}

fn make_header(name: &str, value: Vec<u8>) -> (r: Header)
    ensures
        r@ == named_header(name@, value@),
{
    Header { name: bytes_of(name), value }
}

/// The value of a `Host` header: the host, a colon and the port.
pub open spec fn host_value(host: Seq<u8>, port: u16) -> Seq<u8> {
    host + seq![COLON] + decimal(port as nat)
}

/// The resource that a path and a query name: the path, and after a question
/// mark the query where there is one.
pub open spec fn resource_of(path: Seq<u8>, query: Option<Seq<u8>>) -> Seq<u8> {
    match query {
        Some(q) => path + seq![63u8] + q,
        None => path,
    }
}

/// The request that a client opens with: the upgrade headers, protocol
/// version 13 and the key that encodes `nonce`.
pub open spec fn client_request(resource: Seq<u8>, host: Seq<u8>, nonce: Seq<u8>) -> RequestView {
    RequestView {
        resource,
        headers: seq![
            text_header("Connection"@, "Upgrade"@),
            named_header("Host"@, host),
            text_header("Sec-WebSocket-Version"@, "13"@),
            named_header("Sec-WebSocket-Key"@, encode_base64(nonce)),
            text_header("Upgrade"@, "websocket"@),
        ],
    }
}

/// The request that a client opens with towards a target, with the key that
/// `nonce` makes: none for a target without a host, and none but for
/// sixteen bytes of nonce.
pub open spec fn target_request(target: TargetView, nonce: Option<Seq<u8>>) -> Option<RequestView> {
    match (target.host, nonce) {
        (Some(host), Some(n)) => if n.len() == 16 {
            Some(
                client_request(
                    resource_of(target.path, target.query),
                    host_value(
                        host,
                        match target.port {
                            Some(p) => p,
                            None => 80,
                        },
                    ),
                    n,
                ),
            )
        } else {
            None
        },
        _ => None,
    }
}

/// Whether `r` is a request that a client opens with, for some resource,
/// host and sixteen bytes of nonce.
pub open spec fn is_client_request(r: RequestView) -> bool {
    exists|resource: Seq<u8>, host: Seq<u8>, nonce: Seq<u8>|
        nonce.len() == 16 && r == #[trigger] client_request(resource, host, nonce)
}

/// Whether a server takes the request: it asks for an upgrade to websocket,
/// carries a key of the right shape, and speaks version 13.
pub open spec fn request_acceptable(r: RequestView) -> bool {
    &&& lookup(r.headers, ascii("Upgrade"@)) matches Some(v) && same_ignoring_case(
        v,
        ascii("websocket"@),
    )
    &&& lookup(r.headers, ascii("Sec-WebSocket-Key"@)) matches Some(k) && is_key(k)
    &&& lookup(r.headers, ascii("Sec-WebSocket-Version"@)) == Some(ascii("13"@))
}

/// The response with which a server takes a request with key `key`.
pub open spec fn server_response(key: Seq<u8>) -> ResponseView {
    ResponseView {
        status: 101,
        reason: ascii("Switching Protocols"@),
        headers: seq![
            text_header("Connection"@, "Upgrade"@),
            named_header("Sec-WebSocket-Accept"@, accept_token(key)),
            text_header("Upgrade"@, "websocket"@),
        ],
    }
}

/// Whether a client that sent `req` takes the response: the status is 101,
/// the upgrade is to websocket, and the accept token is the one that answers
/// the key it sent.
pub open spec fn response_acceptable(req: RequestView, res: ResponseView) -> bool {
    &&& res.status == 101
    &&& lookup(res.headers, ascii("Upgrade"@)) matches Some(v) && same_ignoring_case(
        v,
        ascii("websocket"@),
    )
    &&& lookup(req.headers, ascii("Sec-WebSocket-Key"@)) matches Some(k) && lookup(
        res.headers,
        ascii("Sec-WebSocket-Accept"@),
    ) == Some(accept_token(k))
}

/// The first line of a request and its headers, as they travel.
pub open spec fn format_request(r: RequestView) -> Seq<u8> {
    ascii("GET "@) + r.resource + ascii(" HTTP/1.1"@) + seq![CR, LF] + format_headers(r.headers)
}

/// The first line of a response and its headers, as they travel.
pub open spec fn format_response(r: ResponseView) -> Seq<u8> {
    ascii("HTTP/1.1 "@) + decimal(r.status as nat) + seq![SPACE] + r.reason + seq![CR, LF]
        + format_headers(r.headers)
}

/// Reads the first line of a request: the method `GET`, a resource that is
/// not empty and holds no space, and the version `HTTP/1.1`.
pub open spec fn parse_request_line(line: Seq<u8>) -> Option<Seq<u8>> {
    let pre = ascii("GET "@);
    let suf = ascii(" HTTP/1.1"@);
    let from = pre.len() as int;
    let to = line.len() - suf.len();
    if from < to && line.subrange(0, from) == pre && line.subrange(to, line.len() as int) == suf
        && position_of(line.subrange(from, to), SPACE, 0) is None {
        Some(line.subrange(from, to))
    } else {
        None
    }
}

/// A decimal digit.
pub open spec fn is_digit(b: u8) -> bool {
    48 <= b <= 57
}

/// Reads the first line of a response: the version `HTTP/1.1`, a status of
/// three digits, and after a space the words that go with it.
pub open spec fn parse_status_line(line: Seq<u8>) -> Option<(u16, Seq<u8>)> {
    let pre = ascii("HTTP/1.1 "@);
    let at = pre.len() as int;
    if line.len() >= at + 3 && line.subrange(0, at) == pre && is_digit(line[at]) && is_digit(
        line[at + 1],
    ) && is_digit(line[at + 2]) && (line.len() == at + 3 || line[at + 3] == SPACE) {
        Some(
            (
                ((line[at] - 48) * 100 + (line[at + 1] - 48) * 10 + (line[at + 2] - 48)) as u16,
                if line.len() > at + 4 {
                    line.subrange(at + 4, line.len() as int)
                } else {
                    Seq::empty()
                },
            ),
        )
    } else {
        None
    }
}

/// What the start of a buffer is as a request.
pub enum ParsedRequest {
    /// The buffer ends before the empty line.
    Incomplete,
    /// The bytes are no request.
    Malformed,
    /// The request, and the number of bytes it took.
    Complete(RequestView, int),
}

/// Reads a request from the start of `buf`.
pub open spec fn parse_request(buf: Seq<u8>) -> ParsedRequest {
    match line_len(buf, 0) {
        None => ParsedRequest::Incomplete,
        Some(n) => match parse_request_line(buf.subrange(0, n as int)) {
            None => ParsedRequest::Malformed,
            Some(resource) => match parse_headers(buf, (n + 2) as int) {
                HeaderBlock::Incomplete => ParsedRequest::Incomplete,
                HeaderBlock::Malformed => ParsedRequest::Malformed,
                HeaderBlock::Complete(headers, end) => ParsedRequest::Complete(
                    RequestView { resource, headers },
                    end,
                ),
            },
        },
    }
}

/// What the start of a buffer is as a response.
pub enum ParsedResponse {
    /// The buffer ends before the empty line.
    Incomplete,
    /// The bytes are no response.
    Malformed,
    /// The response, and the number of bytes it took.
    Complete(ResponseView, int),
}

/// Reads a response from the start of `buf`.
pub open spec fn parse_response(buf: Seq<u8>) -> ParsedResponse {
    match line_len(buf, 0) {
        None => ParsedResponse::Incomplete,
        Some(n) => match parse_status_line(buf.subrange(0, n as int)) {
            None => ParsedResponse::Malformed,
            Some((status, reason)) => match parse_headers(buf, (n + 2) as int) {
                HeaderBlock::Incomplete => ParsedResponse::Incomplete,
                HeaderBlock::Malformed => ParsedResponse::Malformed,
                HeaderBlock::Complete(headers, end) => ParsedResponse::Complete(
                    ResponseView { status, reason, headers },
                    end,
                ),
            },
        },
    }
}

fn read_request_line(line: &[u8]) -> (r: Option<Vec<u8>>)
    ensures
        match parse_request_line(line@) {
            Some(resource) => r matches Some(v) && v@ == resource,
            None => r is None,
        },
{
    let pre = bytes_of("GET ");
    let suf = bytes_of(" HTTP/1.1");
    let n: usize = line.len();
    if n < suf.len() || n - suf.len() <= pre.len() {
        return None;
    }
    let from: usize = pre.len();
    let to: usize = n - suf.len();
    if !eq_bytes(vstd::slice::slice_subrange(line, 0, from), pre.as_slice()) {
        return None;
    }
    if !eq_bytes(vstd::slice::slice_subrange(line, to, n), suf.as_slice()) {
        return None;
    }
    let resource = copy_range(line, from, to);
    if find_byte(resource.as_slice(), SPACE, 0).is_some() {
        None
    } else {
        Some(resource)
    }
}

fn read_status_line(line: &[u8]) -> (r: Option<(u16, Vec<u8>)>)
    ensures
        match parse_status_line(line@) {
            Some((status, reason)) => r matches Some((s, v)) && s == status && v@ == reason,
            None => r is None,
        },
{
    let pre = bytes_of("HTTP/1.1 ");
    let n: usize = line.len();
    let at: usize = pre.len();
    if n < at || n - at < 3 {
        return None;
    }
    if !eq_bytes(vstd::slice::slice_subrange(line, 0, at), pre.as_slice()) {
        return None;
    }
    let a: u8 = line[at];
    let b: u8 = line[at + 1];
    let c: u8 = line[at + 2];
    if a < 48 || a > 57 || b < 48 || b > 57 || c < 48 || c > 57 {
        return None;
    }
    if n - at > 3 && line[at + 3] != SPACE {
        return None;
    }
    let status: u16 = ((a - 48) as u16) * 100 + ((b - 48) as u16) * 10 + ((c - 48) as u16);
    let reason: Vec<u8> = if n - at > 4 {
        copy_range(line, at + 4, n)
    } else {
        Vec::new()
    };
    Some((status, reason))
}

/// The value of a `Host` header.
pub fn host_bytes(host: &[u8], port: u16) -> (r: Vec<u8>)
    ensures
        r@ == host_value(host@, port),
{
    let mut out: Vec<u8> = Vec::new();
    append_bytes(&mut out, host);
    out.push(COLON);
    assert(out@ =~= host@ + seq![COLON]);
    append_decimal(&mut out, port);
    out
}

/// The resource that a path and a query name.
pub fn resource_bytes(path: &[u8], query: Option<&[u8]>) -> (r: Vec<u8>)
    ensures
        r@ == resource_of(
            path@,
            match query {
                Some(q) => Some(q@),
                None => None,
            },
        ),
{
    let mut out: Vec<u8> = Vec::new();
    append_bytes(&mut out, path);
    assert(out@ =~= path@);
    match query {
        Some(q) => {
            out.push(63);
            append_bytes(&mut out, q);
        },
        None => {},
    }
    out
}

/// Whether what a parser returned is the outcome `p`.
pub open spec fn request_agrees(r: Result<Option<(Request, usize)>, Error>, p: ParsedRequest) -> bool {
    match p {
        ParsedRequest::Incomplete => r matches Ok(None),
        ParsedRequest::Malformed => fails_with(r, Kind::HandshakeFailure),
        ParsedRequest::Complete(req, n) => r matches Ok(Some((found, m))) && found@ == req && m
            == n,
    }
}

/// Whether what a parser returned is the outcome `p`.
pub open spec fn response_agrees(r: Result<Option<(Response, usize)>, Error>, p: ParsedResponse) -> bool {
    match p {
        ParsedResponse::Incomplete => r matches Ok(None),
        ParsedResponse::Malformed => fails_with(r, Kind::HandshakeFailure),
        ParsedResponse::Complete(res, n) => r matches Ok(Some((found, m))) && found@ == res && m
            == n,
    }
}

impl Request {
    /// The request that a client opens with, for the given resource, the
    /// value of the `Host` header and the bytes that make the key.
    pub fn new(resource: Vec<u8>, host: Vec<u8>, nonce: &[u8]) -> (r: Request)
        ensures
            r@ == client_request(resource@, host@, nonce@),
    {
        let mut headers: Vec<Header> = Vec::new();
        headers.push(make_header("Connection", bytes_of("Upgrade")));
        headers.push(make_header("Host", host));
        headers.push(make_header("Sec-WebSocket-Version", bytes_of("13")));
        headers.push(make_header("Sec-WebSocket-Key", crate::base64::encode(nonce)));
        headers.push(make_header("Upgrade", bytes_of("websocket")));
        let r = Request { resource, headers };
        assert(r@.headers =~= client_request(resource@, host@, nonce@).headers);
        r
    }

    /// The request that a client opens with towards `target`, with the key
    /// that `nonce` makes. The resource is the path and the query of the
    /// target, and the `Host` header its host and its port, or port 80 where
    /// it has none. A target without a host is refused as an internal error,
    /// and so is everything but sixteen bytes of nonce.
    pub fn for_target(target: &Target, nonce: Option<Vec<u8>>) -> (r: Result<Request, Error>)
        ensures
            match target_request(target@, optional_bytes(nonce)) {
                Some(request) => r matches Ok(req) && req@ == request,
                None => fails_with(r, Kind::Internal),
            },
    {
        let host: &Vec<u8> = match &target.host {
            Some(h) => h,
            None => {
                return Err(Error::of(Kind::Internal));
            },
        };
        let nonce: Vec<u8> = match nonce {
            Some(n) => n,
            None => {
                return Err(Error::of(Kind::Internal));
            },
        };
        if nonce.len() != 16 {
            return Err(Error::of(Kind::Internal));
        }
        let port: u16 = match target.port {
            Some(p) => p,
            None => 80,
        };
        let resource = match &target.query {
            Some(q) => resource_bytes(target.path.as_slice(), Some(q.as_slice())),
            None => resource_bytes(target.path.as_slice(), None),
        };
        Ok(Request::new(resource, host_bytes(host.as_slice(), port), nonce.as_slice()))
    }

    /// The request that a client opens with towards `url`, with a key made
    /// of sixteen fresh random bytes. A URL without a host is refused, and
    /// so is every URL while there are no random bytes to be had.
    pub fn from_url(url: &url::Url) -> (r: Result<Request, Error>)
        ensures
            r matches Ok(req) ==> is_client_request(req@),
            r matches Err(e) ==> e@ == crate::result::plain_error(Kind::Internal),
    {
        let target = Target::of_url(url);
        let r = Request::for_target(&target, random_bytes(16));
        r
    }

    /// Reads a request from the start of `buf`: the request and the number of
    /// bytes it took, or nothing while the buffer ends before the empty line.
    pub fn parse(buf: &[u8]) -> (r: Result<Option<(Request, usize)>, Error>)
        ensures
            request_agrees(r, parse_request(buf@)),
    {
        let total: usize = buf.len();
        let end: usize = match find_line_end(buf, 0) {
            None => {
                return Ok(None);
            },
            Some(end) => end,
        };
        let resource = match read_request_line(vstd::slice::slice_subrange(buf, 0, end)) {
            None => {
                return Err(Error::of(Kind::HandshakeFailure));
            },
            Some(resource) => resource,
        };
        match read_headers(buf, end + 2) {
            None => Err(Error::of(Kind::HandshakeFailure)),
            Some(None) => Ok(None),
            Some(Some((headers, used))) => Ok(Some((Request { resource, headers }, used))),
        }
    }

    /// The bytes of the request as they travel.
    pub fn format(&self) -> (r: Vec<u8>)
        ensures
            r@ == format_request(self@),
    {
        let mut out: Vec<u8> = Vec::new();
        append_text(&mut out, "GET ");
        append_bytes(&mut out, self.resource.as_slice());
        append_text(&mut out, " HTTP/1.1");
        out.push(CR);
        out.push(LF);
        assert(out@ =~= ascii("GET "@) + self@.resource + ascii(" HTTP/1.1"@) + seq![CR, LF]);
        append_headers(&mut out, &self.headers);
        out
    }

    /// The resource that the request asks for.
    pub fn resource(&self) -> (r: &Vec<u8>)
        ensures
            r@ == self@.resource,
    {
        &self.resource
    }

    /// The value of the first header called `name`, whatever the case of its
    /// letters.
    pub fn header(&self, name: &str) -> (r: Option<&Vec<u8>>)
        ensures
            match lookup(self@.headers, ascii(name@)) {
                Some(v) => r matches Some(found) && found@ == v,
                None => r is None,
            },
    {
        let wanted = bytes_of(name);
        find_header(&self.headers, wanted.as_slice())
    }

    /// The key that the client sent. A request without one fails the
    /// handshake.
    pub fn key(&self) -> (r: Result<&Vec<u8>, Error>)
        ensures
            match lookup(self@.headers, ascii("Sec-WebSocket-Key"@)) {
                Some(v) => r matches Ok(found) && found@ == v,
                None => fails_with(r, Kind::HandshakeFailure),
            },
    {
        match self.header("Sec-WebSocket-Key") {
            Some(k) => Ok(k),
            None => Err(Error::of(Kind::HandshakeFailure)),
        }
    }

    /// The accept token that answers the key of this request.
    pub fn hashed_key(&self) -> (r: Result<Vec<u8>, Error>)
        ensures
            match lookup(self@.headers, ascii("Sec-WebSocket-Key"@)) {
                Some(v) => r matches Ok(token) && token@ == accept_token(v) && token@.len()
                    == TOKEN_LEN,
                None => fails_with(r, Kind::HandshakeFailure),
            },
    {
        match self.header("Sec-WebSocket-Key") {
            Some(k) => Ok(accept_token_for(k.as_slice())),
            None => Err(Error::of(Kind::HandshakeFailure)),
        }
    }

    /// The protocol version that the client speaks, if it says so.
    pub fn version(&self) -> (r: Option<&Vec<u8>>)
        ensures
            match lookup(self@.headers, ascii("Sec-WebSocket-Version"@)) {
                Some(v) => r matches Some(found) && found@ == v,
                None => r is None,
            },
    {
        self.header("Sec-WebSocket-Version")
    }

    /// The subprotocols that the client offers, as it wrote them.
    pub fn protocols(&self) -> (r: Option<&Vec<u8>>)
        ensures
            match lookup(self@.headers, ascii("Sec-WebSocket-Protocol"@)) {
                Some(v) => r matches Some(found) && found@ == v,
                None => r is None,
            },
    {
        self.header("Sec-WebSocket-Protocol")
    }

    /// The extensions that the client offers, as it wrote them.
    pub fn extensions(&self) -> (r: Option<&Vec<u8>>)
        ensures
            match lookup(self@.headers, ascii("Sec-WebSocket-Extensions"@)) {
                Some(v) => r matches Some(found) && found@ == v,
                None => r is None,
            },
    {
        self.header("Sec-WebSocket-Extensions")
    }

    /// Adds a header after those that are there.
    pub fn add_header(&mut self, name: &str, value: &str)
        ensures
            final(self)@ == (RequestView {
                headers: old(self)@.headers.push(text_header(name@, value@)),
                ..old(self)@
            }),
    {
        self.headers.push(make_header(name, bytes_of(value)));
        assert(final(self)@.headers =~= old(self)@.headers.push(text_header(name@, value@)));
    }

    /// Offers a subprotocol.
    pub fn add_protocol(&mut self, protocol: &str)
        ensures
            final(self)@ == (RequestView {
                headers: old(self)@.headers.push(
                    text_header("Sec-WebSocket-Protocol"@, protocol@),
                ),
                ..old(self)@
            }),
    {
        self.add_header("Sec-WebSocket-Protocol", protocol);
    }

    /// Offers an extension.
    pub fn add_extension(&mut self, extension: &str)
        ensures
            final(self)@ == (RequestView {
                headers: old(self)@.headers.push(
                    text_header("Sec-WebSocket-Extensions"@, extension@),
                ),
                ..old(self)@
            }),
    {
        self.add_header("Sec-WebSocket-Extensions", extension);
    }
}

impl Response {
    /// The response with which a server answers `req`. A request that does
    /// not ask for an upgrade to websocket, carries no key of the right shape
    /// or does not speak version 13 fails the handshake, and the failure does
    /// not say which of these it was.
    pub fn from_request(req: &Request) -> (r: Result<Response, Error>)
        ensures
            request_acceptable(req@) ==> (r matches Ok(res) && res@ == server_response(
                lookup(req@.headers, ascii("Sec-WebSocket-Key"@)).unwrap(),
            ) && accept_token(lookup(req@.headers, ascii("Sec-WebSocket-Key"@)).unwrap()).len()
                == TOKEN_LEN),
            !request_acceptable(req@) ==> fails_with(r, Kind::HandshakeFailure),
    {
        let websocket = bytes_of("websocket");
        let thirteen = bytes_of("13");
        let upgrade_ok: bool = match req.header("Upgrade") {
            Some(v) => eq_ignoring_case(v.as_slice(), websocket.as_slice()),
            None => false,
        };
        let version_ok: bool = match req.header("Sec-WebSocket-Version") {
            Some(v) => eq_bytes(v.as_slice(), thirteen.as_slice()),
            None => false,
        };
        let key: Option<&Vec<u8>> = match req.header("Sec-WebSocket-Key") {
            Some(k) => if check_key(k.as_slice()) {
                Some(k)
            } else {
                None
            },
            None => None,
        };
        match key {
            Some(k) => {
                if upgrade_ok && version_ok {
                    let mut headers: Vec<Header> = Vec::new();
                    headers.push(make_header("Connection", bytes_of("Upgrade")));
                    headers.push(
                        make_header("Sec-WebSocket-Accept", accept_token_for(k.as_slice())),
                    );
                    headers.push(make_header("Upgrade", websocket));
                    let res = Response {
                        status: 101,
                        reason: bytes_of("Switching Protocols"),
                        headers,
                    };
                    assert(res@.headers =~= server_response(k@).headers);
                    Ok(res)
                } else {
                    Err(Error::of(Kind::HandshakeFailure))
                }
            },
            None => Err(Error::of(Kind::HandshakeFailure)),
        }
    }

    /// Reads a response from the start of `buf`: the response and the number
    /// of bytes it took, or nothing while the buffer ends before the empty
    /// line.
    pub fn parse(buf: &[u8]) -> (r: Result<Option<(Response, usize)>, Error>)
        ensures
            response_agrees(r, parse_response(buf@)),
    {
        let total: usize = buf.len();
        let end: usize = match find_line_end(buf, 0) {
            None => {
                return Ok(None);
            },
            Some(end) => end,
        };
        let (status, reason) = match read_status_line(vstd::slice::slice_subrange(buf, 0, end)) {
            None => {
                return Err(Error::of(Kind::HandshakeFailure));
            },
            Some(line) => line,
        };
        match read_headers(buf, end + 2) {
            None => Err(Error::of(Kind::HandshakeFailure)),
            Some(None) => Ok(None),
            Some(Some((headers, used))) => Ok(Some((Response { status, reason, headers }, used))),
        }
    }

    /// The bytes of the response as they travel.
    pub fn format(&self) -> (r: Vec<u8>)
        ensures
            r@ == format_response(self@),
    {
        let mut out: Vec<u8> = Vec::new();
        append_text(&mut out, "HTTP/1.1 ");
        append_decimal(&mut out, self.status);
        out.push(SPACE);
        append_bytes(&mut out, self.reason.as_slice());
        out.push(CR);
        out.push(LF);
        assert(out@ =~= ascii("HTTP/1.1 "@) + decimal(self.status as nat) + seq![SPACE]
            + self@.reason + seq![CR, LF]);
        append_headers(&mut out, &self.headers);
        out
    }

    /// The status of the response.
    pub fn status(&self) -> (r: u16)
        ensures
            r == self@.status,
    {
        self.status
    }

    /// The value of the first header called `name`, whatever the case of its
    /// letters.
    pub fn header(&self, name: &str) -> (r: Option<&Vec<u8>>)
        ensures
            match lookup(self@.headers, ascii(name@)) {
                Some(v) => r matches Some(found) && found@ == v,
                None => r is None,
            },
    {
        let wanted = bytes_of(name);
        find_header(&self.headers, wanted.as_slice())
    }

    /// The accept token that the server sent. A response without one fails
    /// the handshake.
    pub fn key(&self) -> (r: Result<&Vec<u8>, Error>)
        ensures
            match lookup(self@.headers, ascii("Sec-WebSocket-Accept"@)) {
                Some(v) => r matches Ok(found) && found@ == v,
                None => fails_with(r, Kind::HandshakeFailure),
            },
    {
        match self.header("Sec-WebSocket-Accept") {
            Some(k) => Ok(k),
            None => Err(Error::of(Kind::HandshakeFailure)),
        }
    }

    /// The subprotocol that the server chose, if it chose one.
    pub fn protocol(&self) -> (r: Option<&Vec<u8>>)
        ensures
            match lookup(self@.headers, ascii("Sec-WebSocket-Protocol"@)) {
                Some(v) => r matches Some(found) && found@ == v,
                None => r is None,
            },
    {
        self.header("Sec-WebSocket-Protocol")
    }

    /// The extensions that the server agreed to, as it wrote them.
    pub fn extensions(&self) -> (r: Option<&Vec<u8>>)
        ensures
            match lookup(self@.headers, ascii("Sec-WebSocket-Extensions"@)) {
                Some(v) => r matches Some(found) && found@ == v,
                None => r is None,
            },
    {
        self.header("Sec-WebSocket-Extensions")
    }

    /// Adds a header after those that are there.
    pub fn add_header(&mut self, name: &str, value: &str)
        ensures
            final(self)@ == (ResponseView {
                headers: old(self)@.headers.push(text_header(name@, value@)),
                ..old(self)@
            }),
    {
        self.headers.push(make_header(name, bytes_of(value)));
        assert(final(self)@.headers =~= old(self)@.headers.push(text_header(name@, value@)));
    }

    /// Names the subprotocol that the server chose.
    pub fn set_protocol(&mut self, protocol: &str)
        ensures
            final(self)@ == (ResponseView {
                headers: old(self)@.headers.push(
                    text_header("Sec-WebSocket-Protocol"@, protocol@),
                ),
                ..old(self)@
            }),
    {
        self.add_header("Sec-WebSocket-Protocol", protocol);
    }

    /// Names an extension that the server agreed to.
    pub fn add_extension(&mut self, extension: &str)
        ensures
            final(self)@ == (ResponseView {
                headers: old(self)@.headers.push(
                    text_header("Sec-WebSocket-Extensions"@, extension@),
                ),
                ..old(self)@
            }),
    {
        self.add_header("Sec-WebSocket-Extensions", extension);
    }

    /// The client's check of the response to its request `req`: anything but
    /// status 101, an upgrade to websocket and the accept token that answers
    /// the key it sent fails the handshake.
    pub fn check(&self, req: &Request) -> (r: Result<(), Error>)
        ensures
            response_acceptable(req@, self@) ==> r is Ok,
            !response_acceptable(req@, self@) ==> fails_with(r, Kind::HandshakeFailure),
    {
        let websocket = bytes_of("websocket");
        let upgrade_ok: bool = match self.header("Upgrade") {
            Some(v) => eq_ignoring_case(v.as_slice(), websocket.as_slice()),
            None => false,
        };
        let token_ok: bool = match req.header("Sec-WebSocket-Key") {
            Some(k) => match self.header("Sec-WebSocket-Accept") {
                Some(t) => {
                    let expected = accept_token_for(k.as_slice());
                    eq_bytes(t.as_slice(), expected.as_slice())
                },
                None => false,
            },
            None => false,
        };
        if self.status == 101 && upgrade_ok && token_ok {
            Ok(())
        } else {
            Err(Error::of(Kind::HandshakeFailure))
        }
    }
}

proof fn lemma_text_bytes(text: &str)
    requires
        vstd::string::is_ascii(text),
    ensures
        ascii(text@).len() == text@.len(),
        forall|i: int| 0 <= i < text@.len() ==> #[trigger] ascii(text@)[i] == text@[i] as u8,
{
    vstd::string::is_ascii_spec_bytes(text);
}

proof fn lemma_name_lengths()
    ensures
        ascii("Connection"@).len() == 10,
        ascii("Host"@).len() == 4,
        ascii("Sec-WebSocket-Version"@).len() == 21,
        ascii("Sec-WebSocket-Key"@).len() == 17,
        ascii("Sec-WebSocket-Accept"@).len() == 20,
        ascii("Upgrade"@).len() == 7,
{
    reveal_strlit("Connection");
    reveal_strlit("Host");
    reveal_strlit("Sec-WebSocket-Version");
    reveal_strlit("Sec-WebSocket-Key");
    reveal_strlit("Sec-WebSocket-Accept");
    reveal_strlit("Upgrade");
    lemma_text_bytes("Connection");
    lemma_text_bytes("Host");
    lemma_text_bytes("Sec-WebSocket-Version");
    lemma_text_bytes("Sec-WebSocket-Key");
    lemma_text_bytes("Sec-WebSocket-Accept");
    lemma_text_bytes("Upgrade");
}

proof fn lemma_same_ignoring_case_reflexive(a: Seq<u8>)
    ensures
        same_ignoring_case(a, a),
{
}

/// A server takes the request that a client opens with.
pub proof fn lemma_client_request_accepted(resource: Seq<u8>, host: Seq<u8>, nonce: Seq<u8>)
    requires
        nonce.len() == 16,
    ensures
        request_acceptable(client_request(resource, host, nonce)),
        lookup(client_request(resource, host, nonce).headers, ascii("Sec-WebSocket-Key"@)) == Some(
            encode_base64(nonce),
        ),
{
    lemma_name_lengths();
    lemma_encoded_nonce_is_key(nonce);
    let hs = client_request(resource, host, nonce).headers;
    let h1 = hs.drop_first();
    let h2 = h1.drop_first();
    let h3 = h2.drop_first();
    let h4 = h3.drop_first();
    lemma_same_ignoring_case_reflexive(ascii("Upgrade"@));
    lemma_same_ignoring_case_reflexive(ascii("Sec-WebSocket-Key"@));
    lemma_same_ignoring_case_reflexive(ascii("Sec-WebSocket-Version"@));
    lemma_same_ignoring_case_reflexive(ascii("websocket"@));
    assert(lookup(h4, ascii("Upgrade"@)) == Some(ascii("websocket"@)));
    assert(lookup(h3, ascii("Upgrade"@)) == Some(ascii("websocket"@)));
    assert(lookup(h2, ascii("Upgrade"@)) == Some(ascii("websocket"@)));
    assert(lookup(h1, ascii("Upgrade"@)) == Some(ascii("websocket"@)));
    assert(lookup(hs, ascii("Upgrade"@)) == Some(ascii("websocket"@)));
    assert(lookup(h3, ascii("Sec-WebSocket-Key"@)) == Some(encode_base64(nonce)));
    assert(lookup(h2, ascii("Sec-WebSocket-Key"@)) == Some(encode_base64(nonce)));
    assert(lookup(h1, ascii("Sec-WebSocket-Key"@)) == Some(encode_base64(nonce)));
    assert(lookup(hs, ascii("Sec-WebSocket-Key"@)) == Some(encode_base64(nonce)));
    assert(lookup(h2, ascii("Sec-WebSocket-Version"@)) == Some(ascii("13"@)));
    assert(lookup(h1, ascii("Sec-WebSocket-Version"@)) == Some(ascii("13"@)));
    assert(lookup(hs, ascii("Sec-WebSocket-Version"@)) == Some(ascii("13"@)));
}

/// A client takes the response with which a server answers its request: the
/// accept token of the response is the one that the client computes from the
/// key it sent.
pub proof fn lemma_server_response_accepted(req: RequestView)
    requires
        request_acceptable(req),
    ensures
        response_acceptable(
            req,
            server_response(lookup(req.headers, ascii("Sec-WebSocket-Key"@)).unwrap()),
        ),
{
    lemma_name_lengths();
    let key = lookup(req.headers, ascii("Sec-WebSocket-Key"@)).unwrap();
    let hs = server_response(key).headers;
    let h1 = hs.drop_first();
    let h2 = h1.drop_first();
    lemma_same_ignoring_case_reflexive(ascii("Upgrade"@));
    lemma_same_ignoring_case_reflexive(ascii("Sec-WebSocket-Accept"@));
    lemma_same_ignoring_case_reflexive(ascii("websocket"@));
    assert(lookup(h2, ascii("Upgrade"@)) == Some(ascii("websocket"@)));
    assert(lookup(h1, ascii("Upgrade"@)) == Some(ascii("websocket"@)));
    assert(lookup(hs, ascii("Upgrade"@)) == Some(ascii("websocket"@)));
    assert(lookup(h1, ascii("Sec-WebSocket-Accept"@)) == Some(accept_token(key)));
    assert(lookup(hs, ascii("Sec-WebSocket-Accept"@)) == Some(accept_token(key)));
}

/// The opening exchange between two ends of this engine succeeds: a server
/// takes a client's opening request, and the client takes the server's
/// answer.
pub proof fn lemma_handshake_completes(resource: Seq<u8>, host: Seq<u8>, nonce: Seq<u8>)
    requires
        nonce.len() == 16,
    ensures
        request_acceptable(client_request(resource, host, nonce)),
        response_acceptable(
            client_request(resource, host, nonce),
            server_response(encode_base64(nonce)),
        ),
{
    lemma_client_request_accepted(resource, host, nonce);
    lemma_server_response_accepted(client_request(resource, host, nonce));
}

/// A request that was parsed took no more bytes than the buffer holds.
pub proof fn lemma_parsed_request_len(buf: Seq<u8>)
    ensures
        parse_request(buf) matches ParsedRequest::Complete(_, n) ==> 0 <= n <= buf.len(),
{
    match line_len(buf, 0) {
        Some(n) => {
            crate::http::lemma_line_len_bound(buf, 0);
            crate::http::lemma_headers_end(buf, (n + 2) as int);
        },
        None => {},
    }
}

/// A response that was parsed took no more bytes than the buffer holds.
pub proof fn lemma_parsed_response_len(buf: Seq<u8>)
    ensures
        parse_response(buf) matches ParsedResponse::Complete(_, n) ==> 0 <= n <= buf.len(),
{
    match line_len(buf, 0) {
        Some(n) => {
            crate::http::lemma_line_len_bound(buf, 0);
            crate::http::lemma_headers_end(buf, (n + 2) as int);
        },
        None => {},
    }
}

/// Whether a request can travel and be read back as it is: a resource
/// that is not empty and holds no space or line end, and headers that can
/// travel.
pub open spec fn request_travels(r: RequestView) -> bool {
    &&& r.resource.len() > 0
    &&& crate::bytes::free_of(r.resource, SPACE)
    &&& crate::bytes::free_of(r.resource, CR)
    &&& crate::http::headers_travel(r.headers)
}

/// Whether a response can travel and be read back as it is: a status of
/// three digits, words without a line end, and headers that can travel.
pub open spec fn response_travels(r: ResponseView) -> bool {
    &&& 100 <= r.status <= 999
    &&& crate::bytes::free_of(r.reason, CR)
    &&& crate::http::headers_travel(r.headers)
}

proof fn lemma_fixed_texts()
    ensures
        ascii("GET "@) == seq![71u8, 69u8, 84u8, 32u8],
        ascii(" HTTP/1.1"@) == seq![32u8, 72u8, 84u8, 84u8, 80u8, 47u8, 49u8, 46u8, 49u8],
        ascii("HTTP/1.1 "@) == seq![72u8, 84u8, 84u8, 80u8, 47u8, 49u8, 46u8, 49u8, 32u8],
{
    reveal_strlit("GET ");
    reveal_strlit(" HTTP/1.1");
    reveal_strlit("HTTP/1.1 ");
    vstd::string::is_ascii_spec_bytes("GET ");
    vstd::string::is_ascii_spec_bytes(" HTTP/1.1");
    vstd::string::is_ascii_spec_bytes("HTTP/1.1 ");
    assert(ascii("GET "@) =~= seq![71u8, 69u8, 84u8, 32u8]);
    assert(ascii(" HTTP/1.1"@) =~= seq![32u8, 72u8, 84u8, 84u8, 80u8, 47u8, 49u8, 46u8, 49u8]);
    assert(ascii("HTTP/1.1 "@) =~= seq![72u8, 84u8, 84u8, 80u8, 47u8, 49u8, 46u8, 49u8, 32u8]);
}

/// A request that was written is read back, whatever follows it.
pub proof fn lemma_request_round_trip(r: RequestView, after: Seq<u8>)
    requires
        request_travels(r),
    ensures
        parse_request(format_request(r) + after) == ParsedRequest::Complete(
            r,
            format_request(r).len() as int,
        ),
{
    lemma_fixed_texts();
    let pre = ascii("GET "@);
    let suf = ascii(" HTTP/1.1"@);
    let line = pre + r.resource + suf;
    let n = line.len();
    let buf = format_request(r) + after;
    let head = line + seq![CR, LF];
    assert(buf =~= head + format_headers(r.headers) + after);
    assert forall|i: int| 0 <= i < n implies #[trigger] buf[i] != CR by {
        assert(buf[i] == line[i]);
        if i < 4 {
            assert(line[i] == pre[i]);
        } else if i < 4 + r.resource.len() {
            assert(line[i] == r.resource[i - 4]);
        } else {
            assert(line[i] == suf[i - 4 - r.resource.len()]);
        }
    }
    assert(buf[n as int] == CR);
    assert(buf[(n + 1) as int] == LF);
    crate::http::lemma_line_found(buf, 0, n);
    assert(buf.subrange(0, n as int) =~= line);
    assert(line.subrange(0, 4) =~= pre);
    assert(line.subrange(n - 9, n as int) =~= suf);
    assert(line.subrange(4, n - 9) =~= r.resource);
    crate::bytes::lemma_position_none(r.resource, SPACE, 0);
    crate::http::lemma_headers_round_trip(head, r.headers, after);
}

proof fn lemma_three_digits(status: u16)
    requires
        100 <= status <= 999,
    ensures
        decimal(status as nat) == seq![
            (48 + status / 100) as u8,
            (48 + (status / 10) % 10) as u8,
            (48 + status % 10) as u8,
        ],
{
    let n = status as nat;
    assert(decimal(n / 100) == seq![(48 + n / 100) as u8]);
    assert(decimal(n / 10) == decimal(n / 10 / 10).push((48 + (n / 10) % 10) as u8));
    assert(n / 10 / 10 == n / 100);
    assert(decimal(n) =~= seq![
        (48 + status / 100) as u8,
        (48 + (status / 10) % 10) as u8,
        (48 + status % 10) as u8,
    ]);
}

/// A response that was written is read back, whatever follows it.
pub proof fn lemma_response_round_trip(r: ResponseView, after: Seq<u8>)
    requires
        response_travels(r),
    ensures
        parse_response(format_response(r) + after) == ParsedResponse::Complete(
            r,
            format_response(r).len() as int,
        ),
{
    lemma_fixed_texts();
    lemma_three_digits(r.status);
    let pre = ascii("HTTP/1.1 "@);
    let digits = decimal(r.status as nat);
    let line = pre + digits + seq![SPACE] + r.reason;
    let n = line.len();
    let buf = format_response(r) + after;
    let head = line + seq![CR, LF];
    assert(buf =~= head + format_headers(r.headers) + after);
    assert forall|i: int| 0 <= i < n implies #[trigger] buf[i] != CR by {
        assert(buf[i] == line[i]);
        if i < 9 {
            assert(line[i] == pre[i]);
        } else if i < 12 {
            assert(line[i] == digits[i - 9]);
        } else if i == 12 {
        } else {
            assert(line[i] == r.reason[i - 13]);
        }
    }
    assert(buf[n as int] == CR);
    assert(buf[(n + 1) as int] == LF);
    crate::http::lemma_line_found(buf, 0, n);
    assert(buf.subrange(0, n as int) =~= line);
    assert(line.subrange(0, 9) =~= pre);
    assert(line[9] == digits[0]);
    assert(line[10] == digits[1]);
    assert(line[11] == digits[2]);
    assert(line[12] == SPACE);
    if n > 13 {
        assert(line.subrange(13, n as int) =~= r.reason);
    } else {
        assert(r.reason =~= Seq::<u8>::empty());
    }
    crate::http::lemma_headers_round_trip(head, r.headers, after);
}

proof fn lemma_names_travel(value: Seq<u8>)
    ensures
        header_travels(text_header("Connection"@, "Upgrade"@)),
        header_travels(text_header("Sec-WebSocket-Version"@, "13"@)),
        header_travels(text_header("Upgrade"@, "websocket"@)),
        crate::bytes::free_of(value, CR) && crate::bytes::is_trimmed(value) ==> header_travels(
            named_header("Host"@, value),
        ) && header_travels(named_header("Sec-WebSocket-Key"@, value)) && header_travels(
            named_header("Sec-WebSocket-Accept"@, value),
        ),
        crate::bytes::free_of(ascii("Switching Protocols"@), CR),
{
    reveal_strlit("Connection");
    reveal_strlit("Upgrade");
    reveal_strlit("Sec-WebSocket-Version");
    reveal_strlit("13");
    reveal_strlit("websocket");
    reveal_strlit("Host");
    reveal_strlit("Sec-WebSocket-Key");
    reveal_strlit("Sec-WebSocket-Accept");
    reveal_strlit("Switching Protocols");
    lemma_text_bytes("Connection");
    lemma_text_bytes("Upgrade");
    lemma_text_bytes("Sec-WebSocket-Version");
    lemma_text_bytes("13");
    lemma_text_bytes("websocket");
    lemma_text_bytes("Host");
    lemma_text_bytes("Sec-WebSocket-Key");
    lemma_text_bytes("Sec-WebSocket-Accept");
    lemma_text_bytes("Switching Protocols");
}

proof fn lemma_encoding_travels(data: Seq<u8>)
    ensures
        crate::bytes::free_of(encode_base64(data), CR),
        crate::bytes::is_trimmed(encode_base64(data)),
{
    let e = encode_base64(data);
    assert forall|i: int| 0 <= i < e.len() implies #[trigger] e[i] != CR && !crate::bytes::is_blank(
        e[i],
    ) by {
        crate::base64::lemma_encoded_chars(data, i);
    }
}

/// The opening exchange succeeds over the wire: what a client writes as
/// its opening request, a server reads as a request that it takes; and what
/// the server writes in answer, the client reads as a response that it
/// takes.
pub proof fn lemma_handshake_over_the_wire(
    resource: Seq<u8>,
    host: Seq<u8>,
    nonce: Seq<u8>,
    more: Seq<u8>,
)
    requires
        nonce.len() == 16,
        resource.len() > 0,
        crate::bytes::free_of(resource, SPACE),
        crate::bytes::free_of(resource, CR),
        crate::bytes::free_of(host, CR),
        crate::bytes::is_trimmed(host),
    ensures
        ({
            let request = client_request(resource, host, nonce);
            let response = server_response(encode_base64(nonce));
            &&& parse_request(format_request(request) + more) == ParsedRequest::Complete(
                request,
                format_request(request).len() as int,
            )
            &&& request_acceptable(request)
            &&& parse_response(format_response(response) + more) == ParsedResponse::Complete(
                response,
                format_response(response).len() as int,
            )
            &&& response_acceptable(request, response)
        }),
{
    let request = client_request(resource, host, nonce);
    let key = encode_base64(nonce);
    let response = server_response(key);
    lemma_encoding_travels(nonce);
    lemma_encoding_travels(sha1_digest(token_input(key)));
    lemma_names_travel(host);
    lemma_names_travel(key);
    lemma_names_travel(accept_token(key));
    assert(header_travels(request.headers[1]));
    assert(header_travels(request.headers[3]));
    assert(header_travels(response.headers[1]));
    lemma_request_round_trip(request, more);
    lemma_response_round_trip(response, more);
    lemma_handshake_completes(resource, host, nonce);
}

} // verus!
