//! How a connection is opened: where to connect to, the request that asks for a
//! WebSocket, and the response that grants it.

use base64::prelude::BASE64_STANDARD;
use base64::Engine;
use http::uri::InvalidUri;
use http::Uri;
use rustls::pki_types::{InvalidDnsNameError, ServerName};
use sha1::{Digest, Sha1};
use vstd::prelude::*;
use vstd::string::*;
use vstd::utf8::{encode_utf8, is_ascii_chars, is_ascii_chars_concat};

use crate::protocol::text_of;
use crate::random::nonce;

verus! {

/// Why a connection could not be opened.
#[derive(Debug)]
pub enum ConnectError {
    /// The server did not switch protocols. Carries what it said.
    InvalidHandshakeResponse(String),
    /// The server did not prove that it read the key.
    InvalidWebSocketAcceptHeader,
    /// The host cannot be the name of a TLS server.
    InvalidDnsName,
    /// The scheme is not the one for this kind of connection.
    InvalidUriScheme,
}

/// The result of a step towards a connection.
pub type ConnectResult<T> = Result<T, ConnectError>;

/// The parts of a URI that a connection is opened by.
#[derive(Debug)]
pub struct Endpoint {
    pub scheme: Option<String>,
    pub host: Option<String>,
    pub port: Option<u16>,
    pub path_and_query: Option<String>,
}

/// The parts of a URI that a connection is opened by, as text.
pub struct EndpointParts {
    pub scheme: Option<Seq<char>>,
    pub host: Option<Seq<char>>,
    pub port: Option<u16>,
    pub path_and_query: Option<Seq<char>>,
}

impl View for Endpoint {
    type V = EndpointParts;

    open spec fn view(&self) -> EndpointParts {
        EndpointParts {
            scheme: text_of(self.scheme),
            host: text_of(self.host),
            port: self.port,
            path_and_query: text_of(self.path_and_query),
        }
    }
}

/// The text is no URI.
#[derive(Debug)]
pub struct InvalidEndpoint;

impl Endpoint {
    /// The parts of the URI that `text` is.
    pub fn parse(text: &str) -> (endpoint: Result<Self, InvalidEndpoint>)
        ensures
            match endpoint {
                Ok(endpoint) => uri_parts(text@) == Some(endpoint@),
                Err(_) => uri_parts(text@) is None,
            },
    {
        match parse_uri(text) {
            Ok(endpoint) => Ok(endpoint),
            Err(_) => Err(InvalidEndpoint),
        }
    }
}

/// The text, or none at all.
pub open spec fn or_empty(text: Option<Seq<char>>) -> Seq<char> {
    match text {
        Some(text) => text,
        None => Seq::empty(),
    }
}

/// The text, or none at all.
fn or_default(text: &Option<String>) -> (result: &str)
    ensures
        result@ == or_empty(text_of(*text)),
{
    match text {
        Some(text) => text.as_str(),
        None => {
            proof {
                reveal_strlit("");
            }
            assert(""@ =~= Seq::<char>::empty());
            ""
        },
    }
}

/// A decimal digit.
pub open spec fn digit(value: nat) -> char {
    ('0' as nat + value) as char
}

/// A number in decimal digits.
pub open spec fn decimal(number: nat) -> Seq<char>
    decreases number,
{
    if number < 10 {
        seq![digit(number)]
    } else {
        decimal(number / 10).push(digit(number % 10))
    }
}

/// A decimal digit.
fn digit_text(value: u16) -> (text: &'static str)
    requires
        value < 10,
    ensures
        text@ == seq![digit(value as nat)],
{
    proof {
        reveal_strlit("0");
        reveal_strlit("1");
        reveal_strlit("2");
        reveal_strlit("3");
        reveal_strlit("4");
        reveal_strlit("5");
        reveal_strlit("6");
        reveal_strlit("7");
        reveal_strlit("8");
        reveal_strlit("9");
    }
    let text = match value {
        0 => "0",
        1 => "1",
        2 => "2",
        3 => "3",
        4 => "4",
        5 => "5",
        6 => "6",
        7 => "7",
        8 => "8",
        _ => "9",
    };
    assert(text@ =~= seq![digit(value as nat)]);
    text
}

/// A number in decimal digits.
fn decimal_text(number: u16) -> (text: String)
    ensures
        text@ == decimal(number as nat),
    decreases number,
{
    if number < 10 {
        digit_text(number).to_owned()
    } else {
        let mut text = decimal_text(number / 10);
        text.append(digit_text(number % 10));
        assert(text@ =~= decimal((number / 10) as nat).push(digit((number % 10) as nat)));
        text
    }
}

/// The host, and behind a colon the port.
pub open spec fn host_and_port(host: Seq<char>, port: u16) -> Seq<char> {
    host + ":"@ + decimal(port as nat)
}

/// The host, and behind a colon the port.
fn host_and_port_text(host: &str, port: u16) -> (text: String)
    ensures
        text@ == host_and_port(host@, port),
{
    let mut text = host.to_owned();
    text.append(":");
    text.append(decimal_text(port).as_str());
    text
}

/// What the request calls the server by: the port is only named where the URI
/// names it.
pub open spec fn host_header(uri: EndpointParts) -> Seq<char> {
    match uri.port {
        Some(port) => host_and_port(or_empty(uri.host), port),
        None => or_empty(uri.host),
    }
}

/// The request that asks for a WebSocket.
pub open spec fn request_text(uri: EndpointParts, key: Seq<char>) -> Seq<char> {
    "GET "@ + or_empty(uri.path_and_query) + " HTTP/1.1\r\n"@
        + "Host: "@ + host_header(uri) + "\r\n"@
        + "Upgrade: websocket\r\n"@
        + "Connection: Upgrade\r\n"@
        + "Sec-WebSocket-Key: "@ + key + "\r\n"@
        + "Sec-WebSocket-Version: 13\r\n"@
        + "\r\n"@
}

/// The request that asks for a WebSocket.
pub fn http_request(uri: &Endpoint, key: &str) -> (request: String)
    ensures
        request@ == request_text(uri@, key@),
{
    let host = match uri.port {
        Some(port) => host_and_port_text(or_default(&uri.host), port),
        None => or_default(&uri.host).to_owned(),
    };
    let mut request = "GET ".to_owned();
    request.append(or_default(&uri.path_and_query));
    request.append(" HTTP/1.1\r\n");
    request.append("Host: ");
    request.append(host.as_str());
    request.append("\r\n");
    request.append("Upgrade: websocket\r\n");
    request.append("Connection: Upgrade\r\n");
    request.append("Sec-WebSocket-Key: ");
    request.append(key);
    request.append("\r\n");
    request.append("Sec-WebSocket-Version: 13\r\n");
    request.append("\r\n");
    request
}

/// Where to connect to: the host, with the port of the URI or else the one that
/// the scheme stands for.
pub open spec fn address(uri: EndpointParts, scheme_port: u16) -> Seq<char> {
    host_and_port(
        or_empty(uri.host),
        match uri.port {
            Some(port) => port,
            None => scheme_port,
        },
    )
}

/// Where to connect to.
fn address_text(uri: &Endpoint, scheme_port: u16) -> (text: String)
    ensures
        text@ == address(uri@, scheme_port),
{
    let port: u16 = match uri.port {
        Some(port) => port,
        None => scheme_port,
    };
    host_and_port_text(or_default(&uri.host), port)
}

/// Whether the URI has the given scheme.
fn has_scheme(uri: &Endpoint, scheme: &str) -> (has: bool)
    ensures
        has == (uri@.scheme == Some(scheme@)),
{
    match &uri.scheme {
        Some(text) => *text == scheme.to_owned(),
        None => false,
    }
}

/// Where to connect to without TLS, and with which port where the URI names none.
pub fn plain_target(uri: &Endpoint) -> (target: ConnectResult<String>)
    ensures
        match target {
            Ok(target) => uri@.scheme == Some("ws"@) && target@ == address(uri@, 80),
            Err(error) => uri@.scheme != Some("ws"@) && error is InvalidUriScheme,
        },
{
    if !has_scheme(uri, "ws") {
        return Err(ConnectError::InvalidUriScheme);
    }
    Ok(address_text(uri, 80))
}

/// Where to connect to with TLS.
#[derive(Debug)]
pub struct TlsTarget {
    /// The name that the server has to prove.
    pub server_name: String,
    pub address: String,
}

/// `target` is where to connect to with TLS, if `named` says whether the host can
/// be the name of a server.
pub open spec fn tls_target_is(
    target: ConnectResult<TlsTarget>,
    uri: EndpointParts,
    named: bool,
) -> bool {
    match target {
        Ok(target) => {
            &&& uri.scheme == Some("wss"@)
            &&& named
            &&& target.server_name@ == or_empty(uri.host)
            &&& target.address@ == address(uri, 443)
        },
        Err(error) => if uri.scheme != Some("wss"@) {
            error is InvalidUriScheme
        } else {
            !named && error is InvalidDnsName
        },
    }
}

/// Where to connect to with TLS. The scheme is looked at first, then whether the
/// host can be the name of a server.
pub fn tls_target(uri: &Endpoint) -> (target: ConnectResult<TlsTarget>)
    ensures
        tls_target_is(target, uri@, names_server(or_empty(uri@.host))),
        target matches Ok(target) ==> names_server(target.server_name@),
{
    let named = check_server_name(or_default(&uri.host)).is_ok();
    tls_target_if(uri, named)
}

/// Where to connect to with TLS, if `named` says whether the host can be the name
/// of a server.
pub fn tls_target_if(uri: &Endpoint, named: bool) -> (target: ConnectResult<TlsTarget>)
    ensures
        tls_target_is(target, uri@, named),
{
    if !has_scheme(uri, "wss") {
        return Err(ConnectError::InvalidUriScheme);
    }
    if !named {
        return Err(ConnectError::InvalidDnsName);
    }
    Ok(
        TlsTarget {
            server_name: or_default(&uri.host).to_owned(),
            address: address_text(uri, 443),
        },
    )
}

/// The client's half of the handshake.
#[derive(Debug)]
pub struct Handshake {
    /// What the server has to prove that it read.
    pub key: String,
    /// What is sent to the server.
    pub request: String,
}

impl Handshake {
    /// A handshake with a key of its own.
    pub fn new(uri: &Endpoint) -> (handshake: Self)
        ensures
            exists|bytes: Seq<u8>|
                bytes.len() == 16 && handshake.key@ == #[trigger] base64_text(bytes),
            handshake.request@ == request_text(uri@, handshake.key@),
            hashable(handshake.key@),
    {
        Self::with_nonce(uri, nonce())
    }

    /// The handshake whose key stands for the given bytes.
    pub fn with_nonce(uri: &Endpoint, nonce: [u8; 16]) -> (handshake: Self)
        ensures
            handshake.key@ == base64_text(nonce@),
            handshake.request@ == request_text(uri@, handshake.key@),
            hashable(handshake.key@),
    {
        let key = encode_base64(nonce.as_slice());
        proof {
            vstd::utf8::is_ascii_chars_encode_utf8(key@);
        }
        let request = http_request(uri, key.as_str());
        Self { key, request }
    }
}

/// Whether a line of `bytes_read` bytes ends the head of a response: it holds no
/// more than a line break, or the stream has ended.
pub fn ends_head(bytes_read: usize) -> (ends: bool)
    ensures
        ends == (bytes_read <= 2),
{
    bytes_read <= 2
}

/// What a server appends to the key before it hashes it.
pub open spec fn key_suffix() -> Seq<char> {
    "258EAFA5-E914-47DA-95CA-C5AB0DC85B11"@
}

/// Whether the key, with what is appended to it, is short enough for the hash.
pub open spec fn hashable(key: Seq<char>) -> bool {
    encode_utf8(key).len() < 0x1000_0000_0000_0000
}

/// What a server that read the key says.
pub open spec fn accept_text(key: Seq<char>) -> Seq<char> {
    base64_text(sha1_of(encode_utf8(key + key_suffix())))
}

/// What a server that read the key says.
pub fn accept_key(key: &str) -> (accept: String)
    requires
        hashable(key@),
    ensures
        accept@ == accept_text(key@),
        is_ascii_chars(accept@),
{
    let mut text = key.to_owned();
    text.append("258EAFA5-E914-47DA-95CA-C5AB0DC85B11");
    proof {
        utf8_of_concatenation(key@, key_suffix());
        reveal_strlit("258EAFA5-E914-47DA-95CA-C5AB0DC85B11");
        assert(is_ascii_chars(key_suffix()));
        vstd::utf8::is_ascii_chars_encode_utf8(key_suffix());
    }
    let digest = hash(text.as_str().as_bytes());
    encode_base64(digest.as_slice())
}

proof fn utf8_of_concatenation(front: Seq<char>, back: Seq<char>)
    ensures
        encode_utf8(front + back) == encode_utf8(front) + encode_utf8(back),
    decreases front.len(),
{
    if front.len() == 0 {
        assert(front + back =~= back);
        assert(encode_utf8(front) + encode_utf8(back) =~= encode_utf8(back));
    } else {
        let all = front + back;
        assert(all.drop_first() =~= front.drop_first() + back);
        utf8_of_concatenation(front.drop_first(), back);
        assert(encode_utf8(all) =~= encode_utf8(front) + encode_utf8(back));
    }
}

/// The header by which a server proves that it read the key.
pub open spec fn accept_header(key: Seq<char>) -> Seq<char> {
    "Sec-WebSocket-Accept: "@ + accept_text(key)
}

/// `needle` stands somewhere in `text`.
pub open spec fn occurs(needle: Seq<char>, text: Seq<char>) -> bool {
    exists|at: int|
        0 <= at <= text.len() - needle.len() && #[trigger] text.subrange(at, at + needle.len())
            == needle
}

/// `result` is the verdict on a response, whose text in lower case is `lowered`,
/// where `header` in lower case is asked for.
pub open spec fn judges(
    result: ConnectResult<()>,
    response: String,
    lowered: Seq<char>,
    header: Seq<char>,
) -> bool {
    match result {
        Ok(_) => "HTTP/1.1 101"@.is_prefix_of(response@) && occurs(header, lowered),
        Err(error) => if !"HTTP/1.1 101"@.is_prefix_of(response@) {
            error matches ConnectError::InvalidHandshakeResponse(said) && said == response
        } else {
            !occurs(header, lowered) && error is InvalidWebSocketAcceptHeader
        },
    }
}

/// The verdict on a response: the server has to switch protocols, and has to send
/// the header by which it proves that it read the key. Upper and lower case are
/// the same there.
pub fn verify_response(response: String, key: &str) -> (result: ConnectResult<()>)
    requires
        hashable(key@),
    ensures
        judges(
            result,
            response,
            lowercase_text(response@),
            lowercase_text(accept_header(key@)),
        ),
        is_ascii_chars(response@) ==> judges(
            result,
            response,
            ascii_lowered(response@),
            ascii_lowered(accept_header(key@)),
        ),
{
    let mut header = "Sec-WebSocket-Accept: ".to_owned();
    let accept = accept_key(key);
    header.append(accept.as_str());
    proof {
        reveal_strlit("Sec-WebSocket-Accept: ");
        assert(is_ascii_chars("Sec-WebSocket-Accept: "@));
        is_ascii_chars_concat(header@, "Sec-WebSocket-Accept: "@, accept@);
    }
    let lowered = to_lowercase(response.as_str());
    let expected = to_lowercase(header.as_str());
    judge_response(response, lowered.as_str(), expected.as_str())
}

/// The verdict on a response, whose text in lower case is `lowered`, where
/// `header` in lower case is asked for.
pub fn judge_response(response: String, lowered: &str, header: &str) -> (result:
    ConnectResult<()>)
    ensures
        judges(result, response, lowered@, header@),
{
    if !starts_with(response.as_str(), "HTTP/1.1 101") {
        return Err(ConnectError::InvalidHandshakeResponse(response));
    }
    if !contains(lowered, header) {
        return Err(ConnectError::InvalidWebSocketAcceptHeader);
    }
    Ok(())
}

/// A letter of the English alphabet in lower case, everything else as it is.
pub open spec fn ascii_lower(c: char) -> char {
    if 'A' <= c <= 'Z' {
        (c as nat + 32) as char
    } else {
        c
    }
}

/// The text with the letters of the English alphabet in lower case.
pub open spec fn ascii_lowered(text: Seq<char>) -> Seq<char> {
    Seq::new(text.len(), |i: int| ascii_lower(text[i]))
}

/// A header is found in a response in whatever case it is written: a response
/// that holds `header` is accepted just as one that holds `expected`, where the
/// two are the same in lower case.
pub proof fn case_does_not_matter(header: Seq<char>, expected: Seq<char>, response: Seq<char>)
    requires
        occurs(header, response),
        ascii_lowered(header) == ascii_lowered(expected),
    ensures
        occurs(ascii_lowered(expected), ascii_lowered(response)),
{
    let at = choose|at: int|
        0 <= at <= response.len() - header.len() && #[trigger] response.subrange(
            at,
            at + header.len(),
        ) == header;
    let lowered = ascii_lowered(response);
    assert forall|i: int| 0 <= i < header.len() implies response[at + i] == header[i] by {
        assert(response.subrange(at, at + header.len())[i] == header[i]);
    }
    assert(ascii_lowered(header).len() == header.len());
    assert(lowered.subrange(at, at + header.len()) =~= ascii_lowered(header));
}

/// The parts of the URI that `text` is, by [`Uri`]'s `FromStr` and the methods of
/// [`Uri`] that give the parts.
pub uninterp spec fn uri_parts(text: Seq<char>) -> Option<EndpointParts>;

/// The error of [`Uri`]'s `FromStr`.
#[verifier::external_type_specification]
#[verifier::external_body]
pub struct ExInvalidUri(http::uri::InvalidUri);

/// `Uri::from_str` reads a URI; `scheme_str`, `host`, `port_u16` and
/// `path_and_query` give its parts, of which the last is turned into text. All of
/// it follows from the text alone; what follows is only given a name.
#[verifier::external_body]
fn parse_uri(text: &str) -> (parsed: Result<Endpoint, InvalidUri>)
    ensures
        match parsed {
            Ok(endpoint) => uri_parts(text@) == Some(endpoint@),
            Err(_) => uri_parts(text@) is None,
        },
{
    match text.parse::<Uri>() {
        Ok(uri) => Ok(Endpoint {
            scheme: uri.scheme_str().map(str::to_owned),
            host: uri.host().map(str::to_owned),
            port: uri.port_u16(),
            path_and_query: uri.path_and_query().map(ToString::to_string),
        }),
        Err(error) => Err(error),
    }
}

/// Whether `host` can be the name of a TLS server, by [`ServerName`]'s `TryFrom`.
pub uninterp spec fn names_server(host: Seq<char>) -> bool;

/// The error of [`ServerName`]'s `TryFrom`.
#[verifier::external_type_specification]
#[verifier::external_body]
pub struct ExInvalidDnsNameError(rustls::pki_types::InvalidDnsNameError);

/// `ServerName::try_from` succeeds on a DNS name or an IP address. Which texts
/// these are is only given a name.
#[verifier::external_body]
fn check_server_name(host: &str) -> (named: Result<(), InvalidDnsNameError>)
    ensures
        named is Ok <==> names_server(host@),
{
    match ServerName::try_from(host.to_owned()) {
        Ok(_) => Ok(()),
        Err(error) => Err(error),
    }
}

/// `bytes` in the standard alphabet of base64, padded.
pub uninterp spec fn base64_text(bytes: Seq<u8>) -> Seq<char>;

/// `Engine::encode` of `BASE64_STANDARD` gives four ASCII characters for every
/// three bytes, and for what is left of them. Which characters these are follows
/// from the bytes alone and is only given a name. It panics where the length
/// cannot be counted.
#[verifier::external_body]
fn encode_base64(bytes: &[u8]) -> (text: String)
    requires
        4 * bytes@.len() + 12 <= 3 * isize::MAX,
    ensures
        text@ == base64_text(bytes@),
        text@.len() == 4 * ((bytes@.len() + 2) / 3),
        is_ascii_chars(text@),
{
    BASE64_STANDARD.encode(bytes)
}

/// The SHA-1 digest of `bytes`.
pub uninterp spec fn sha1_of(bytes: Seq<u8>) -> Seq<u8>;

/// `Sha1` gives a digest of twenty bytes. Which bytes these are follows from the
/// hashed ones alone and is only given a name. The number of bits that are hashed
/// has to fit 64 bits.
#[verifier::external_body]
fn hash(bytes: &[u8]) -> (digest: Vec<u8>)
    requires
        bytes@.len() < 0x2000_0000_0000_0000,
    ensures
        digest@ == sha1_of(bytes@),
        digest@.len() == 20,
{
    let mut hasher = Sha1::new();
    hasher.update(bytes);
    hasher.finalize().to_vec()
}

/// `text` in lower case, by [`str::to_lowercase`].
pub uninterp spec fn lowercase_text(text: Seq<char>) -> Seq<char>;

/// `str::to_lowercase` gives the text in lower case, as Unicode has it. That is
/// given a name; of ASCII text it is stated.
#[verifier::external_body]
fn to_lowercase(text: &str) -> (lowered: String)
    ensures
        lowered@ == lowercase_text(text@),
        is_ascii_chars(text@) ==> lowered@ == ascii_lowered(text@),
{
    text.to_lowercase()
}

/// `str::starts_with` on a text: whether the one is a prefix of the other.
#[verifier::external_body]
fn starts_with(text: &str, prefix: &str) -> (starts: bool)
    ensures
        starts == prefix@.is_prefix_of(text@),
{
    text.starts_with(prefix)
}

/// `str::contains` on a text: whether the one stands somewhere in the other.
#[verifier::external_body]
fn contains(text: &str, needle: &str) -> (found: bool)
    ensures
        found == occurs(needle@, text@),
{
    text.contains(needle)
}

/// The number that a text of decimal digits stands for.
pub open spec fn value_of(text: Seq<char>) -> nat
    decreases text.len(),
{
    if text.len() == 0 {
        0
    } else {
        10 * value_of(text.drop_last()) + (text.last() as nat - '0' as nat) as nat
    }
}

/// The text of a number reads back as that number, is made of digits alone, and
/// has no leading zero unless it is zero.
pub proof fn decimal_reads_back(number: nat)
    ensures
        value_of(decimal(number)) == number,
        decimal(number).len() >= 1,
        forall|i: int|
            0 <= i < decimal(number).len() ==> '0' <= #[trigger] decimal(number)[i] <= '9',
        decimal(number)[0] == '0' ==> number == 0 && decimal(number).len() == 1,
    decreases number,
{
    if number < 10 {
        assert(decimal(number).drop_last() =~= Seq::<char>::empty());
        assert(value_of(Seq::<char>::empty()) == 0);
    } else {
        decimal_reads_back(number / 10);
        assert(decimal(number).drop_last() =~= decimal(number / 10));
        assert(decimal(number)[0] == decimal(number / 10)[0]);
    }
}

/// No two numbers have the same text.
pub proof fn numbers_have_texts_of_their_own(a: nat, b: nat)
    requires
        decimal(a) == decimal(b),
    ensures
        a == b,
{
    decimal_reads_back(a);
    decimal_reads_back(b);
}

/// Where to connect to, and what the request calls the server by: the host of the
/// URI, and behind a colon digits that stand for the port. The address falls back
/// on the port of the scheme, while the request then names none.
pub proof fn addresses_hold_host_and_port(uri: EndpointParts, scheme_port: u16)
    ensures
        ({
            let host = match uri.host {
                Some(host) => host,
                None => Seq::empty(),
            };
            let port = match uri.port {
                Some(port) => port,
                None => scheme_port,
            };
            let text = address(uri, scheme_port);
            let len = host.len() as int;
            &&& text.len() > len + 1
            &&& text.take(len) == host
            &&& text[len] == ':'
            &&& value_of(text.skip(len + 1)) == port
            &&& forall|i: int| len < i < text.len() ==> '0' <= #[trigger] text[i] <= '9'
            &&& text[len + 1] == '0' ==> port == 0 && text.len() == len + 2
            &&& uri.port is Some ==> host_header(uri) == text
            &&& uri.port is None ==> host_header(uri) == host
        }),
{
    let host = or_empty(uri.host);
    let port = match uri.port {
        Some(port) => port,
        None => scheme_port,
    };
    let text = address(uri, scheme_port);
    let len = host.len() as int;
    reveal_strlit(":");
    decimal_reads_back(port as nat);
    assert(text.take(len) =~= host);
    assert(text.skip(len + 1) =~= decimal(port as nat));
    assert forall|i: int| len < i < text.len() implies '0' <= #[trigger] text[i] <= '9' by {
        assert(text[i] == decimal(port as nat)[i - len - 1]);
    }
}

/// The request, line by line: it asks for the path of the URI, names the host,
/// asks for a WebSocket of version 13, and carries the key. Every line ends with a
/// line break, and so does the request.
pub proof fn requests_are_made_of_these_lines(uri: EndpointParts, key: Seq<char>)
    ensures
        ({
            let path = match uri.path_and_query {
                Some(path) => path,
                None => Seq::empty(),
            };
            request_text(uri, key) == "GET "@ + path + " HTTP/1.1\r\nHost: "@ + host_header(uri)
                + "\r\nUpgrade: websocket\r\nConnection: Upgrade\r\nSec-WebSocket-Key: "@ + key
                + "\r\nSec-WebSocket-Version: 13\r\n\r\n"@
        }),
{
    reveal_strlit("GET ");
    reveal_strlit(" HTTP/1.1\r\n");
    reveal_strlit("Host: ");
    reveal_strlit("\r\n");
    reveal_strlit("Upgrade: websocket\r\n");
    reveal_strlit("Connection: Upgrade\r\n");
    reveal_strlit("Sec-WebSocket-Key: ");
    reveal_strlit("Sec-WebSocket-Version: 13\r\n");
    reveal_strlit(" HTTP/1.1\r\nHost: ");
    reveal_strlit("\r\nUpgrade: websocket\r\nConnection: Upgrade\r\nSec-WebSocket-Key: ");
    reveal_strlit("\r\nSec-WebSocket-Version: 13\r\n\r\n");
    let path = or_empty(uri.path_and_query);
    assert(request_text(uri, key) =~= "GET "@ + path + " HTTP/1.1\r\nHost: "@ + host_header(uri)
        + "\r\nUpgrade: websocket\r\nConnection: Upgrade\r\nSec-WebSocket-Key: "@ + key
        + "\r\nSec-WebSocket-Version: 13\r\n\r\n"@);
}

/// A TLS connection is opened exactly where the scheme is the one for TLS and the
/// host alone, whatever the port, can be the name of a server. That host is then
/// the name that the server has to prove, and the address is the host with the
/// port.
pub proof fn tls_servers_are_named_by_their_host(
    target: ConnectResult<TlsTarget>,
    uri: EndpointParts,
)
    requires
        tls_target_is(target, uri, names_server(or_empty(uri.host))),
    ensures
        ({
            let host = match uri.host {
                Some(host) => host,
                None => Seq::empty(),
            };
            &&& target is Ok <==> uri.scheme == Some("wss"@) && names_server(host)
            &&& target matches Ok(target) ==> {
                &&& target.server_name@ == host
                &&& names_server(target.server_name@)
                &&& target.address@ == address(uri, 443)
            }
            &&& target matches Err(error) ==> if uri.scheme == Some("wss"@) {
                error is InvalidDnsName
            } else {
                error is InvalidUriScheme
            }
        }),
{
}

/// A text stands in another one where that is made of something, the text, and
/// something else.
pub proof fn texts_occur_between_others(needle: Seq<char>, text: Seq<char>)
    ensures
        occurs(needle, text) <==> exists|front: Seq<char>, back: Seq<char>|
            text == #[trigger] (front + needle + back),
{
    if occurs(needle, text) {
        let at = choose|at: int|
            0 <= at <= text.len() - needle.len() && #[trigger] text.subrange(at, at + needle.len())
                == needle;
        let front = text.take(at);
        let back = text.skip(at + needle.len());
        assert(text =~= front + text.subrange(at, at + needle.len()) + back);
        assert(text == front + needle + back);
    }
    if exists|front: Seq<char>, back: Seq<char>| text == #[trigger] (front + needle + back) {
        let (front, back) = choose|front: Seq<char>, back: Seq<char>|
            text == #[trigger] (front + needle + back);
        let at = front.len() as int;
        assert(text.subrange(at, at + needle.len()) =~= needle);
    }
}

/// A response is accepted exactly where its first twelve characters grant the
/// change of protocols and the header stands somewhere in it. Else it is handed
/// back whole where it grants nothing, and found wanting of the header where it
/// does.
pub proof fn responses_are_judged_by_status_and_header(
    result: ConnectResult<()>,
    response: String,
    lowered: Seq<char>,
    header: Seq<char>,
)
    requires
        judges(result, response, lowered, header),
    ensures
        ({
            let granted = response@.len() >= 12 && response@.take(12) == "HTTP/1.1 101"@;
            let proved = exists|front: Seq<char>, back: Seq<char>|
                lowered == #[trigger] (front + header + back);
            &&& result is Ok <==> granted && proved
            &&& result matches Err(error) ==> if granted {
                error is InvalidWebSocketAcceptHeader
            } else {
                error matches ConnectError::InvalidHandshakeResponse(said) && said@ == response@
            }
        }),
{
    texts_occur_between_others(header, lowered);
    reveal_strlit("HTTP/1.1 101");
    let prefix = "HTTP/1.1 101"@;
    assert(prefix.len() == 12);
    if prefix.is_prefix_of(response@) {
        assert(response@.take(12) =~= prefix);
    }
    if response@.len() >= 12 && response@.take(12) == prefix {
        assert(prefix =~= response@.subrange(0, 12));
    }
}

/// Only the capital letters of the English alphabet change in lower case, each to
/// the letter 32 places behind it.
pub proof fn lower_case_moves_capitals(text: Seq<char>)
    ensures
        ascii_lowered(text).len() == text.len(),
        forall|i: int|
            0 <= i < text.len() ==> (#[trigger] ascii_lowered(text)[i]) as nat == text[i] as nat
                + if 65 <= text[i] as nat <= 90 {
                32int
            } else {
                0int
            },
{
}

/// What proves that a server read the key: the hash of the key with the fixed
/// suffix, in base64, behind the name of the header.
pub proof fn headers_prove_the_key(key: Seq<char>)
    ensures
        accept_text(key) == base64_text(
            sha1_of(encode_utf8(key + "258EAFA5-E914-47DA-95CA-C5AB0DC85B11"@)),
        ),
        accept_header(key) == "Sec-WebSocket-Accept: "@ + base64_text(
            sha1_of(encode_utf8(key + "258EAFA5-E914-47DA-95CA-C5AB0DC85B11"@)),
        ),
{
}

/// The parts of an endpoint are the texts of its fields.
pub proof fn endpoints_are_their_fields(uri: Endpoint)
    ensures
        uri@.port == uri.port,
        match uri.scheme {
            Some(text) => uri@.scheme == Some(text@),
            None => uri@.scheme is None,
        },
        match uri.host {
            Some(text) => uri@.host == Some(text@),
            None => uri@.host is None,
        },
        match uri.path_and_query {
            Some(text) => uri@.path_and_query == Some(text@),
            None => uri@.path_and_query is None,
        },
{
}

/// Where to connect to with TLS, whatever is said about the name of the server:
/// the scheme decides first, then the name, and what is given is the host and the
/// address.
pub proof fn tls_targets_need_scheme_and_name(
    target: ConnectResult<TlsTarget>,
    uri: EndpointParts,
    named: bool,
)
    requires
        tls_target_is(target, uri, named),
    ensures
        target is Ok <==> uri.scheme == Some("wss"@) && named,
        target matches Ok(target) ==> target.address@ == address(uri, 443) && match uri.host {
            Some(host) => target.server_name@ == host,
            None => target.server_name@.len() == 0,
        },
        target matches Err(error) ==> if uri.scheme == Some("wss"@) {
            error is InvalidDnsName
        } else {
            error is InvalidUriScheme
        },
{
}

/// Only a key that, with its suffix, could not be hashed is left out.
pub proof fn all_but_the_longest_keys_are_hashable(key: Seq<char>)
    ensures
        hashable(key) <==> encode_utf8(key).len() < 0x1000_0000_0000_0000,
{
}

} // verus!
