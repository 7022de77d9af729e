use websocket::error::{HandshakeErrorKind, WebSocketError};
use websocket::handshake::{accept_request, Header};
use websocket::request::parse_request;

const HEAD: &str = "GET /chat HTTP/1.1\r\n\
Host: server.example.com\r\n\
Upgrade: websocket\r\n\
Connection: Upgrade\r\n\
Sec-WebSocket-Key: dGhlIHNhbXBsZSBub25jZQ==\r\n\
Sec-WebSocket-Version: 13\r\n\r\n";

#[test]
fn parses_a_request_head() {
    let mut bytes = HEAD.as_bytes().to_vec();
    bytes.extend_from_slice(&[0x81, 0x80]);
    let (request, used) = parse_request(&bytes).unwrap();
    assert_eq!(used, HEAD.len());
    assert_eq!(request.method, "GET");
    assert_eq!(request.path, "/chat");
    assert_eq!((request.version_major, request.version_minor), (1, 1));
    assert_eq!(request.headers.len(), 5);
    assert_eq!(
        request.headers[0],
        Header { name: "Host".to_string(), value: "server.example.com".to_string() }
    );
    let response = accept_request(&request).unwrap();
    assert_eq!(response.status, 101);
    assert_eq!(response.headers[2].name, "Sec-WebSocket-Accept");
    assert_eq!(response.headers[2].value, "s3pPLMBiTxaQ9kYGzzhZRbK+xOo=");
}

#[test]
fn incomplete_head_asks_for_more() {
    let bytes = &HEAD.as_bytes()[..HEAD.len() - 1];
    assert_eq!(parse_request(bytes), Err(WebSocketError::IoError));
    assert_eq!(parse_request(b""), Err(WebSocketError::IoError));
}

#[test]
fn malformed_heads_are_refused() {
    let malformed = Err(WebSocketError::HandshakeError(HandshakeErrorKind::MalformedRequest));
    assert_eq!(parse_request(b"GET /chat\r\n\r\n"), malformed);
    assert_eq!(parse_request(b"GET /chat HTTP/1.1\r\nNoColonHere\r\n\r\n"), malformed);
    assert_eq!(parse_request(b"GET /chat HTTP/one\r\n\r\n"), malformed);
    assert_eq!(parse_request(b"\r\n\r\n"), malformed);
}

#[test]
fn header_values_are_trimmed() {
    let (request, _) = parse_request(b"GET / HTTP/1.0\r\nUpgrade:\t websocket  \r\n\r\n").unwrap();
    assert_eq!((request.version_major, request.version_minor), (1, 0));
    assert_eq!(request.headers[0].value, "websocket");
    assert_eq!(
        accept_request(&request),
        Err(WebSocketError::HandshakeError(HandshakeErrorKind::InvalidHttpVersion))
    );
}
