//! The server side of the upgrade handshake.

use vstd::prelude::*;
use vstd::string::StringSliceAdditionalSpecFns;
use vstd::utf8::encode_utf8;
use crate::error::{HandshakeErrorKind, WebSocketError};
use crate::message::string_bytes;

verus! {

/// The fixed GUID that the accept digest appends to the client's key.
pub const WS_GUID: &'static str = "258EAFA5-E914-47DA-95CA-C5AB0DC85B11";

/// What SHA-1 gives for `data`.
pub uninterp spec fn sha1_of(data: Seq<u8>) -> Seq<u8>;

/// What standard base64 with padding gives for `data`.
pub uninterp spec fn base64_of(data: Seq<u8>) -> Seq<char>;

/// What base64 decoding gives for `text`, where it decodes.
pub uninterp spec fn base64_decoded(text: Seq<char>) -> Option<Seq<u8>>;

/// Relies on `openssl::sha::sha1`: the SHA-1 digest of the bytes.
#[verifier::external_body]
fn sha1(data: &[u8]) -> (r: [u8; 20])
    ensures
        r@ == sha1_of(data@),
{
    openssl::sha::sha1(data)
}

/// Relies on `openssl::base64::encode_block`: standard base64 with padding;
/// it panics only where the length overflows a C `int`.
#[verifier::external_body]
fn base64_encode(data: &[u8]) -> (r: String)
    requires
        data@.len() <= 0x3fff_ffff,
    ensures
        r@ == base64_of(data@),
{
    openssl::base64::encode_block(data)
}

/// Relies on `openssl::base64::decode_block`: the bytes that base64 text
/// decodes to, or nothing where it does not decode; it panics only where
/// the length overflows a C `int`.
#[verifier::external_body]
fn base64_decode(text: &str) -> (r: Option<Vec<u8>>)
    requires
        text.spec_bytes().len() <= 0x3fff_ffff,
    ensures
        r is Some <==> base64_decoded(text@) is Some,
        r is Some ==> r->0@ == base64_decoded(text@)->0,
{
    openssl::base64::decode_block(text).ok()
}

/// The `Sec-WebSocket-Accept` value for a client key.
pub open spec fn accept_key_of(key: Seq<char>) -> Seq<char> {
    base64_of(sha1_of(encode_utf8(key) + encode_utf8(WS_GUID@)))
}

/// Computes the `Sec-WebSocket-Accept` value: base64 of the SHA-1 of the
/// key, as sent, followed by the fixed GUID.
pub fn accept_key(key: &str) -> (r: String)
    requires
        key.spec_bytes().len() <= 0x3fff_0000,
    ensures
        r@ == accept_key_of(key@),
{
    let mut data = vstd::slice::slice_to_vec(key.as_bytes());
    let mut guid = vstd::slice::slice_to_vec(WS_GUID.as_bytes());
    data.append(&mut guid);
    let digest = sha1(data.as_slice());
    base64_encode(&digest)
}

/// One HTTP header.
#[derive(Clone, Debug, PartialEq, Eq)]
pub struct Header {
    /// Its name.
    pub name: String,
    /// Its value.
    pub value: String,
}

/// The parts of an upgrade request that the handshake reads.
#[derive(Clone, Debug, PartialEq, Eq)]
pub struct Request {
    /// The method, such as `GET`.
    pub method: String,
    /// The request target.
    pub path: String,
    /// The major HTTP version.
    pub version_major: u8,
    /// The minor HTTP version.
    pub version_minor: u8,
    /// The headers, in the order they came.
    pub headers: Vec<Header>,
}

/// The status and headers of a handshake response.
#[derive(Clone, Debug, PartialEq, Eq)]
pub struct Response {
    /// The status code.
    pub status: u16,
    /// The headers, in order.
    pub headers: Vec<Header>,
}

/// A byte in ASCII lower case.
pub open spec fn ascii_lower(b: u8) -> u8 {
    if 65 <= b <= 90 {
        (b + 32) as u8
    } else {
        b
    }
}

/// Equality up to ASCII case.
pub open spec fn eq_ignore_case(a: Seq<u8>, b: Seq<u8>) -> bool {
    &&& a.len() == b.len()
    &&& forall|i: int| 0 <= i < a.len() ==> #[trigger] ascii_lower(a[i]) == ascii_lower(b[i])
}

/// A space or a tab.
pub open spec fn is_space(b: u8) -> bool {
    b == 32 || b == 9
}

/// `s` without its leading and trailing spaces and tabs.
pub open spec fn trim(s: Seq<u8>) -> Seq<u8>
    decreases s.len(),
{
    if s.len() > 0 && is_space(s[0]) {
        trim(s.drop_first())
    } else if s.len() > 0 && is_space(s.last()) {
        trim(s.drop_last())
    } else {
        s
    }
}

/// The index of the first comma in `v`, or its length.
pub open spec fn comma_index(v: Seq<u8>) -> int
    decreases v.len(),
{
    if v.len() == 0 {
        0
    } else if v[0] == 44 {
        0
    } else {
        1 + comma_index(v.drop_first())
    }
}

/// Whether the comma-separated list `v` holds `t`, up to ASCII case and
/// the spaces round each item.
pub open spec fn has_token(v: Seq<u8>, t: Seq<u8>) -> bool
    decreases v.len(),
{
    let end = comma_index(v);
    if 0 <= end <= v.len() {
        eq_ignore_case(trim(v.take(end)), t) || (end < v.len() && has_token(v.skip(end + 1), t))
    } else {
        false
    }
}

/// The value of the first header named `name` (up to ASCII case).
pub open spec fn header_value(hs: Seq<Header>, name: Seq<u8>) -> Option<Seq<char>>
    decreases hs.len(),
{
    if hs.len() == 0 {
        None
    } else if eq_ignore_case(encode_utf8(hs[0].name@), name) {
        Some(hs[0].value@)
    } else {
        header_value(hs.drop_first(), name)
    }
}

proof fn lemma_comma_index_bounds(v: Seq<u8>)
    ensures
        0 <= comma_index(v) <= v.len(),
        comma_index(v) < v.len() ==> v[comma_index(v)] == 44,
        forall|i: int| 0 <= i < comma_index(v) ==> v[i] != 44,
    decreases v.len(),
{
    if v.len() > 0 && v[0] != 44 {
        lemma_comma_index_bounds(v.drop_first());
        assert forall|i: int| 0 <= i < comma_index(v) implies v[i] != 44 by {
            if i > 0 {
                assert(v[i] == v.drop_first()[i - 1]);
            }
        }
    }
}

/// Compares two byte strings up to ASCII case.
pub fn bytes_eq_ignore_case(a: &[u8], b: &[u8]) -> (r: bool)
    ensures
        r == eq_ignore_case(a@, b@),
{
    if a.len() != b.len() {
        return false;
    }
    let mut i: usize = 0;
    while i < a.len()
        invariant
            a@.len() == b@.len(),
            i <= a@.len(),
            forall|j: int| 0 <= j < i ==> #[trigger] ascii_lower(a@[j]) == ascii_lower(b@[j]),
        decreases a@.len() - i,
    {
        let x = a[i];
        let y = b[i];
        let lx: u8 = if 65 <= x && x <= 90 { x + 32 } else { x };
        let ly: u8 = if 65 <= y && y <= 90 { y + 32 } else { y };
        if lx != ly {
            assert(ascii_lower(a@[i as int]) != ascii_lower(b@[i as int]));
            return false;
        }
        i = i + 1;
    }
    true
}

/// The bounds of `v[lo..hi]` without its leading and trailing spaces and tabs.
pub(crate) fn trim_bounds(v: &Vec<u8>, lo: usize, hi: usize) -> (r: (usize, usize))
    requires
        lo <= hi <= v@.len(),
    ensures
        lo <= r.0 <= r.1 <= hi,
        v@.subrange(r.0 as int, r.1 as int) == trim(v@.subrange(lo as int, hi as int)),
    decreases hi - lo,
{
    let ghost s = v@.subrange(lo as int, hi as int);
    if lo < hi && (v[lo] == 32 || v[lo] == 9) {
        assert(s.drop_first() == v@.subrange(lo + 1, hi as int));
        trim_bounds(v, lo + 1, hi)
    } else if lo < hi && (v[hi - 1] == 32 || v[hi - 1] == 9) {
        assert(s.drop_last() == v@.subrange(lo as int, hi - 1));
        trim_bounds(v, lo, hi - 1)
    } else {
        (lo, hi)
    }
}

/// Whether the comma-separated list `v` holds `t`, up to ASCII case and
/// the spaces round each item.
pub fn contains_token(v: &Vec<u8>, t: &[u8]) -> (r: bool)
    ensures
        r == has_token(v@, t@),
{
    let mut start: usize = 0;
    assert(v@.skip(0) =~= v@);
    while start <= v.len()
        invariant
            start <= v@.len() + 1,
            has_token(v@, t@) == (start <= v@.len() && has_token(v@.skip(start as int), t@)),
        decreases v@.len() + 1 - start,
    {
        let ghost rest = v@.skip(start as int);
        let mut end: usize = start;
        while end < v.len() && v[end] != 44
            invariant
                start <= end <= v@.len(),
                forall|i: int| start <= i < end ==> v@[i] != 44,
            decreases v@.len() - end,
        {
            end = end + 1;
        }
        proof {
            lemma_comma_index_bounds(rest);
            let c = comma_index(rest);
            if c < end - start {
                assert(rest[c] == v@[start + c]);
            }
            if end - start < c {
                assert(rest[end - start] == v@[end as int]);
            }
            assert(c == end - start);
            assert(rest.take(c) == v@.subrange(start as int, end as int));
        }
        let (a, b) = trim_bounds(v, start, end);
        let item = vstd::slice::slice_subrange(v.as_slice(), a, b);
        if bytes_eq_ignore_case(item, t) {
            return true;
        }
        if end == v.len() {
            return false;
        }
        proof {
            assert(rest.skip(end - start + 1) == v@.skip(end + 1));
        }
        start = end + 1;
    }
    false
}

/// The header name `upgrade`, which is also the token that `Connection` must hold, in lower case.
pub open spec fn lit_upgrade() -> Seq<u8> {
    seq![117u8, 112u8, 103u8, 114u8, 97u8, 100u8, 101u8]
}

fn bytes_upgrade() -> (r: Vec<u8>)
    ensures
        r@ == lit_upgrade(),
{
    vec![117u8, 112u8, 103u8, 114u8, 97u8, 100u8, 101u8]
}

/// The header name `connection`.
pub open spec fn lit_connection() -> Seq<u8> {
    seq![99u8, 111u8, 110u8, 110u8, 101u8, 99u8, 116u8, 105u8, 111u8, 110u8]
}

fn bytes_connection() -> (r: Vec<u8>)
    ensures
        r@ == lit_connection(),
{
    vec![99u8, 111u8, 110u8, 110u8, 101u8, 99u8, 116u8, 105u8, 111u8, 110u8]
}

/// The header name `sec-websocket-version`.
pub open spec fn lit_version_name() -> Seq<u8> {
    seq![115u8, 101u8, 99u8, 45u8, 119u8, 101u8, 98u8, 115u8, 111u8, 99u8, 107u8, 101u8, 116u8, 45u8, 118u8, 101u8, 114u8, 115u8, 105u8, 111u8, 110u8]
}

fn bytes_version_name() -> (r: Vec<u8>)
    ensures
        r@ == lit_version_name(),
{
    vec![115u8, 101u8, 99u8, 45u8, 119u8, 101u8, 98u8, 115u8, 111u8, 99u8, 107u8, 101u8, 116u8, 45u8, 118u8, 101u8, 114u8, 115u8, 105u8, 111u8, 110u8]
}

/// The header name `sec-websocket-key`.
pub open spec fn lit_key_name() -> Seq<u8> {
    seq![115u8, 101u8, 99u8, 45u8, 119u8, 101u8, 98u8, 115u8, 111u8, 99u8, 107u8, 101u8, 116u8, 45u8, 107u8, 101u8, 121u8]
}

fn bytes_key_name() -> (r: Vec<u8>)
    ensures
        r@ == lit_key_name(),
{
    vec![115u8, 101u8, 99u8, 45u8, 119u8, 101u8, 98u8, 115u8, 111u8, 99u8, 107u8, 101u8, 116u8, 45u8, 107u8, 101u8, 121u8]
}

/// The token `websocket`.
pub open spec fn lit_websocket() -> Seq<u8> {
    seq![119u8, 101u8, 98u8, 115u8, 111u8, 99u8, 107u8, 101u8, 116u8]
}

fn bytes_websocket() -> (r: Vec<u8>)
    ensures
        r@ == lit_websocket(),
{
    vec![119u8, 101u8, 98u8, 115u8, 111u8, 99u8, 107u8, 101u8, 116u8]
}

/// The method `GET`.
pub open spec fn lit_get() -> Seq<u8> {
    seq![71u8, 69u8, 84u8]
}

fn bytes_get() -> (r: Vec<u8>)
    ensures
        r@ == lit_get(),
{
    vec![71u8, 69u8, 84u8]
}

/// The protocol version `13`.
pub open spec fn lit_version_13() -> Seq<u8> {
    seq![49u8, 51u8]
}

fn bytes_version_13() -> (r: Vec<u8>)
    ensures
        r@ == lit_version_13(),
{
    vec![49u8, 51u8]
}

/// The longest key, in bytes, that is decoded.
pub const MAX_KEY_LEN: usize = 0x3fff_0000;

/// Whether a value holds the key of a valid upgrade request: at most
/// `MAX_KEY_LEN` bytes that decode as base64 to exactly 16 bytes.
pub open spec fn valid_key(k: Seq<char>) -> bool {
    &&& encode_utf8(k).len() <= MAX_KEY_LEN
    &&& base64_decoded(k) is Some
    &&& base64_decoded(k)->0.len() == 16
}

/// Why an upgrade request is refused, in the order of the checks; none
/// where it is accepted.
pub open spec fn handshake_error(req: Request) -> Option<HandshakeErrorKind> {
    let hs = req.headers@;
    let upgrade = header_value(hs, lit_upgrade());
    let connection = header_value(hs, lit_connection());
    let version = header_value(hs, lit_version_name());
    let key = header_value(hs, lit_key_name());
    if encode_utf8(req.method@) != lit_get() {
        Some(HandshakeErrorKind::InvalidMethod)
    } else if req.version_major < 1 || (req.version_major == 1 && req.version_minor < 1) {
        Some(HandshakeErrorKind::InvalidHttpVersion)
    } else if !(upgrade is Some && has_token(encode_utf8(upgrade->0), lit_websocket())) {
        Some(HandshakeErrorKind::NoUpgrade)
    } else if !(connection is Some && has_token(encode_utf8(connection->0), lit_upgrade())) {
        Some(HandshakeErrorKind::NoConnectionUpgrade)
    } else if !(version is Some && trim(encode_utf8(version->0)) == lit_version_13()) {
        Some(HandshakeErrorKind::UnsupportedVersion)
    } else if !(key is Some && valid_key(key->0)) {
        Some(HandshakeErrorKind::InvalidKey)
    } else {
        None
    }
}

/// The position of the first header named `name` (up to ASCII case).
pub fn find_header(headers: &Vec<Header>, name: &[u8]) -> (r: Option<usize>)
    ensures
        r is None ==> header_value(headers@, name@) is None,
        r is Some ==> r->0 < headers@.len() && header_value(headers@, name@) == Some(
            headers@[r->0 as int].value@,
        ),
{
    let mut i: usize = 0;
    assert(headers@.skip(0) =~= headers@);
    while i < headers.len()
        invariant
            i <= headers@.len(),
            header_value(headers@, name@) == header_value(headers@.skip(i as int), name@),
        decreases headers@.len() - i,
    {
        let ghost rest = headers@.skip(i as int);
        assert(rest[0] == headers@[i as int]);
        let n = string_bytes(&headers[i].name);
        if bytes_eq_ignore_case(n.as_slice(), name) {
            return Some(i);
        }
        assert(rest.drop_first() =~= headers@.skip(i + 1));
        i = i + 1;
    }
    None
}

/// Whether the first header named `name` holds `token` in its list.
fn header_has_token(headers: &Vec<Header>, name: &[u8], token: &[u8]) -> (r: bool)
    ensures
        r == (header_value(headers@, name@) is Some && has_token(
            encode_utf8(header_value(headers@, name@)->0),
            token@,
        )),
{
    match find_header(headers, name) {
        Some(i) => contains_token(&string_bytes(&headers[i].value), token),
        None => false,
    }
}

/// A header from two string literals.
fn header(name: &str, value: &str) -> (r: Header)
    ensures
        r.name@ == name@,
        r.value@ == value@,
{
    Header { name: name.to_owned(), value: value.to_owned() }
}

/// Checks an upgrade request and, where it is valid, builds the
/// `101 Switching Protocols` response with the accept digest of its key.
pub fn accept_request(req: &Request) -> (r: Result<Response, WebSocketError>)
    ensures
        handshake_error(*req) is Some ==> r == Err::<Response, WebSocketError>(
            WebSocketError::HandshakeError(handshake_error(*req)->0),
        ),
        handshake_error(*req) is None ==> r is Ok && ({
            let resp = r->Ok_0;
            let key = header_value(req.headers@, lit_key_name())->0;
            &&& resp.status == 101
            &&& resp.headers@.len() == 3
            &&& resp.headers@[0].name@ == "Upgrade"@
            &&& resp.headers@[0].value@ == "websocket"@
            &&& resp.headers@[1].name@ == "Connection"@
            &&& resp.headers@[1].value@ == "Upgrade"@
            &&& resp.headers@[2].name@ == "Sec-WebSocket-Accept"@
            &&& resp.headers@[2].value@ == accept_key_of(key)
        }),
{
    let get = bytes_get();
    if !bytes_equal(&string_bytes(&req.method), &get) {
        return Err(WebSocketError::HandshakeError(HandshakeErrorKind::InvalidMethod));
    }
    if req.version_major < 1 || (req.version_major == 1 && req.version_minor < 1) {
        return Err(WebSocketError::HandshakeError(HandshakeErrorKind::InvalidHttpVersion));
    }
    if !header_has_token(&req.headers, bytes_upgrade().as_slice(), bytes_websocket().as_slice()) {
        return Err(WebSocketError::HandshakeError(HandshakeErrorKind::NoUpgrade));
    }
    if !header_has_token(&req.headers, bytes_connection().as_slice(), bytes_upgrade().as_slice()) {
        return Err(WebSocketError::HandshakeError(HandshakeErrorKind::NoConnectionUpgrade));
    }
    let version_ok = match find_header(&req.headers, bytes_version_name().as_slice()) {
        Some(i) => {
            let v = string_bytes(&req.headers[i].value);
            let (a, b) = trim_bounds(&v, 0, v.len());
            assert(v@.subrange(0, v@.len() as int) =~= v@);
            let t = vstd::slice::slice_subrange(v.as_slice(), a, b);
            let thirteen = bytes_version_13();
            bytes_equal(&vstd::slice::slice_to_vec(t), &thirteen)
        },
        None => false,
    };
    if !version_ok {
        return Err(WebSocketError::HandshakeError(HandshakeErrorKind::UnsupportedVersion));
    }
    let key_index = match find_header(&req.headers, bytes_key_name().as_slice()) {
        Some(i) => i,
        None => {
            return Err(WebSocketError::HandshakeError(HandshakeErrorKind::InvalidKey));
        },
    };
    let key_bytes = string_bytes(&req.headers[key_index].value);
    if key_bytes.len() > MAX_KEY_LEN {
        return Err(WebSocketError::HandshakeError(HandshakeErrorKind::InvalidKey));
    }
    let key = req.headers[key_index].value.as_str();
    assert(key.spec_bytes() == key_bytes@);
    match base64_decode(key) {
        Some(d) => {
            if d.len() != 16 {
                return Err(WebSocketError::HandshakeError(HandshakeErrorKind::InvalidKey));
            }
        },
        None => {
            return Err(WebSocketError::HandshakeError(HandshakeErrorKind::InvalidKey));
        },
    }
    let accept = accept_key(key);
    Ok(switching_protocols(accept))
}

/// The `101 Switching Protocols` response that carries `accept` as its
/// `Sec-WebSocket-Accept` value.
pub fn switching_protocols(accept: String) -> (r: Response)
    ensures
        r.status == 101,
        r.headers@.len() == 3,
        r.headers@[0].name@ == "Upgrade"@,
        r.headers@[0].value@ == "websocket"@,
        r.headers@[1].name@ == "Connection"@,
        r.headers@[1].value@ == "Upgrade"@,
        r.headers@[2].name@ == "Sec-WebSocket-Accept"@,
        r.headers@[2].value@ == accept@,
{
    let mut headers: Vec<Header> = Vec::new();
    headers.push(header("Upgrade", "websocket"));
    headers.push(header("Connection", "Upgrade"));
    headers.push(Header { name: "Sec-WebSocket-Accept".to_owned(), value: accept });
    Response { status: 101, headers }
}

/// Whether two byte strings are equal.
fn bytes_equal(a: &Vec<u8>, b: &Vec<u8>) -> (r: bool)
    ensures
        r == (a@ == b@),
{
    if a.len() != b.len() {
        return false;
    }
    let mut i: usize = 0;
    while i < a.len()
        invariant
            a@.len() == b@.len(),
            i <= a@.len(),
            forall|j: int| 0 <= j < i ==> a@[j] == b@[j],
        decreases a@.len() - i,
    {
        if a[i] != b[i] {
            return false;
        }
        i = i + 1;
    }
    assert(a@ =~= b@);
    true
}

/// The response that refuses an upgrade: `426 Upgrade Required` with the
/// supported version where the version did not match, `400 Bad Request`
/// otherwise.
pub fn reject_response(kind: HandshakeErrorKind) -> (r: Response)
    ensures
        kind == HandshakeErrorKind::UnsupportedVersion ==> r.status == 426 && r.headers@.len() == 1
            && r.headers@[0].name@ == "Sec-WebSocket-Version"@ && r.headers@[0].value@ == "13"@,
        kind != HandshakeErrorKind::UnsupportedVersion ==> r.status == 400 && r.headers@.len()
            == 0,
{
    let mut headers: Vec<Header> = Vec::new();
    match kind {
        HandshakeErrorKind::UnsupportedVersion => {
            headers.push(header("Sec-WebSocket-Version", "13"));
            Response { status: 426, headers }
        },
        _ => Response { status: 400, headers },
    }
}

/// On the client side: whether the server's `Sec-WebSocket-Accept` value is
/// the digest of the key that the client sent.
pub fn check_accept(key: &str, accept: &String) -> (r: bool)
    requires
        key.spec_bytes().len() <= 0x3fff_0000,
    ensures
        r == (accept@ == accept_key_of(key@)),
{
    let expected = accept_key(key);
    expected == *accept
}

} // verus!
