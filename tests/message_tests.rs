use websocket::dataframe::{read_payload, write_dataframe, DataFrame, FrameReader};
use websocket::error::{HandshakeErrorKind, ProtocolErrorKind, WebSocketError};
use websocket::handshake::{
    accept_key, accept_request, check_accept, reject_response, Header, Request,
};
use websocket::header::{DataFrameFlags, DataFrameHeader};
use websocket::mask::mask_data;
use websocket::message::{message_to_dataframe, CloseData, Message};
use websocket::reader::ByteReader;
use websocket::receive::{MessageAssembler, DEFAULT_MAX_MESSAGE_SIZE};
use websocket::send::new_sender;

fn frames_of(bytes: &[u8]) -> Vec<DataFrame> {
    let mut reader = ByteReader::new(bytes.to_vec());
    let mut frame_reader = FrameReader::new();
    let mut frames = Vec::new();
    while reader.remaining() > 0 {
        frames.push(frame_reader.read_frame(&mut reader).unwrap());
    }
    frames
}

fn feed(assembler: &mut MessageAssembler, bytes: &[u8]) -> Vec<Result<Option<Message>, WebSocketError>> {
    frames_of(bytes).into_iter().map(|f| assembler.push_frame(f)).collect()
}

#[test]
fn single_text_frame_from_server() {
    let mut sender = new_sender(false);
    sender.send_message(&Message::Text("Hello".to_string()), [0, 0, 0, 0]).unwrap();
    assert_eq!(sender.take_output(), vec![0x81, 0x05, 0x48, 0x65, 0x6C, 0x6C, 0x6F]);
}

#[test]
fn masked_client_text() {
    let mut sender = new_sender(true);
    sender.send_message(&Message::Text("Hello".to_string()), [0x37, 0xFA, 0x21, 0x3D]).unwrap();
    let wire = sender.take_output();
    assert_eq!(wire, vec![0x81, 0x85, 0x37, 0xFA, 0x21, 0x3D, 0x7F, 0x9F, 0x4D, 0x51, 0x58]);
    let mut server = MessageAssembler::new(true, DEFAULT_MAX_MESSAGE_SIZE);
    assert_eq!(feed(&mut server, &wire), vec![Ok(Some(Message::Text("Hello".to_string())))]);
}

#[test]
fn fragmented_text() {
    let mut client = MessageAssembler::new(false, DEFAULT_MAX_MESSAGE_SIZE);
    assert_eq!(feed(&mut client, &[0x01, 0x03, 0x48, 0x65, 0x6C]), vec![Ok(None)]);
    assert_eq!(
        feed(&mut client, &[0x80, 0x02, 0x6C, 0x6F]),
        vec![Ok(Some(Message::Text("Hello".to_string())))]
    );
}

#[test]
fn interleaved_ping_during_fragmentation() {
    let mut client = MessageAssembler::new(false, DEFAULT_MAX_MESSAGE_SIZE);
    let wire = [0x01, 0x03, 0x48, 0x65, 0x6C, 0x89, 0x00, 0x80, 0x02, 0x6C, 0x6F];
    assert_eq!(
        feed(&mut client, &wire),
        vec![
            Ok(None),
            Ok(Some(Message::Ping(vec![]))),
            Ok(Some(Message::Text("Hello".to_string()))),
        ]
    );
}

#[test]
fn fragmented_binary_concatenates_in_order() {
    let mut client = MessageAssembler::new(false, DEFAULT_MAX_MESSAGE_SIZE);
    let wire = [0x02, 0x02, 1, 2, 0x00, 0x01, 3, 0x00, 0x00, 0x80, 0x02, 4, 5];
    assert_eq!(
        feed(&mut client, &wire),
        vec![Ok(None), Ok(None), Ok(None), Ok(Some(Message::Binary(vec![1, 2, 3, 4, 5])))]
    );
}

#[test]
fn fragment_serializer_pieces() {
    let mut sender = new_sender(false);
    {
        let mut pieces = sender.fragment();
        pieces.send_fragment(&Message::Text("Hel".to_string()), [0; 4]).unwrap();
        pieces.finish(&Message::Text("lo".to_string()), [0; 4]).unwrap();
    }
    let wire = sender.take_output();
    assert_eq!(wire, vec![0x01, 0x03, 0x48, 0x65, 0x6C, 0x80, 0x02, 0x6C, 0x6F]);
    let mut client = MessageAssembler::new(false, DEFAULT_MAX_MESSAGE_SIZE);
    assert_eq!(
        feed(&mut client, &wire),
        vec![Ok(None), Ok(Some(Message::Text("Hello".to_string())))]
    );
}

#[test]
fn three_pieces_use_continuations() {
    let mut sender = new_sender(false);
    {
        let mut pieces = sender.fragment();
        pieces.send_fragment(&Message::Binary(vec![1]), [0; 4]).unwrap();
        pieces.send_fragment(&Message::Binary(vec![2]), [0; 4]).unwrap();
        pieces.finish(&Message::Binary(vec![3]), [0; 4]).unwrap();
    }
    assert_eq!(sender.take_output(), vec![0x02, 0x01, 1, 0x00, 0x01, 2, 0x80, 0x01, 3]);
}

#[test]
fn close_message_round_trip() {
    let close = Message::Close(Some(CloseData { status_code: 1000, reason: "bye".to_string() }));
    let mut sender = new_sender(false);
    sender.send_message(&close, [0; 4]).unwrap();
    let wire = sender.take_output();
    assert_eq!(wire, vec![0x88, 0x05, 0x03, 0xE8, b'b', b'y', b'e']);
    let mut client = MessageAssembler::new(false, DEFAULT_MAX_MESSAGE_SIZE);
    assert_eq!(feed(&mut client, &wire), vec![Ok(Some(close))]);
    assert!(client.closed());
    assert_eq!(feed(&mut client, &[0x89, 0x00]), vec![Ok(None)]);
}

#[test]
fn empty_close_and_pong() {
    let mut client = MessageAssembler::new(false, DEFAULT_MAX_MESSAGE_SIZE);
    assert_eq!(
        feed(&mut client, &[0x8A, 0x01, 7, 0x88, 0x00]),
        vec![Ok(Some(Message::Pong(vec![7]))), Ok(Some(Message::Close(None)))]
    );
}

#[test]
fn protocol_violations() {
    let proto = |k| Err(WebSocketError::ProtocolError(k));
    let mut client = MessageAssembler::new(false, DEFAULT_MAX_MESSAGE_SIZE);
    assert_eq!(feed(&mut client, &[0x80, 0x00]), vec![proto(ProtocolErrorKind::UnexpectedContinuation)]);
    assert_eq!(feed(&mut client, &[0xC1, 0x00]), vec![proto(ProtocolErrorKind::ReservedBits)]);
    assert_eq!(feed(&mut client, &[0x83, 0x00]), vec![proto(ProtocolErrorKind::ReservedOpcode)]);
    assert_eq!(
        feed(&mut client, &[0x81, 0x80, 1, 2, 3, 4]),
        vec![proto(ProtocolErrorKind::MaskedFrame)]
    );
    assert_eq!(feed(&mut client, &[0x88, 0x01, 3]), vec![proto(ProtocolErrorKind::InvalidClosePayload)]);
    assert_eq!(feed(&mut client, &[0x88, 0x02, 0x03, 0xF4]), vec![proto(ProtocolErrorKind::InvalidClosePayload)]);
    assert_eq!(
        feed(&mut client, &[0x01, 0x01, 0x41, 0x81, 0x01, 0x42]),
        vec![Ok(None), proto(ProtocolErrorKind::ExpectedContinuation)]
    );
    let mut server = MessageAssembler::new(true, DEFAULT_MAX_MESSAGE_SIZE);
    let err = feed(&mut server, &[0x81, 0x00]);
    assert_eq!(err, vec![proto(ProtocolErrorKind::UnmaskedFrame)]);
    assert_eq!(err[0].clone().unwrap_err().close_code(), Some(1002));
}

#[test]
fn invalid_utf8_and_oversized() {
    let mut client = MessageAssembler::new(false, 4);
    let utf = feed(&mut client, &[0x81, 0x02, 0xC3, 0x28]);
    assert_eq!(utf, vec![Err(WebSocketError::Utf8Error)]);
    assert_eq!(utf[0].clone().unwrap_err().close_code(), Some(1007));
    let big = feed(&mut client, &[0x82, 0x05, 1, 2, 3, 4, 5]);
    assert_eq!(big, vec![Err(WebSocketError::Oversized)]);
    assert_eq!(big[0].clone().unwrap_err().close_code(), Some(1009));
    assert_eq!(
        feed(&mut client, &[0x02, 0x03, 1, 2, 3, 0x80, 0x02, 4, 5]),
        vec![Ok(None), Err(WebSocketError::Oversized)]
    );
    let header = DataFrameHeader { flags: DataFrameFlags::fin(), opcode: 0, mask: None, len: 2 };
    assert_eq!(client.check_length(&header), Err(WebSocketError::Oversized));
    let header = DataFrameHeader { flags: DataFrameFlags::fin(), opcode: 0, mask: None, len: 1 };
    assert_eq!(client.check_length(&header), Ok(()));
}

#[test]
fn masking_is_symmetric() {
    let key = [0x37, 0xFA, 0x21, 0x3D];
    let data = b"Hello".to_vec();
    let masked = mask_data(key, &data);
    assert_eq!(masked, vec![0x7F, 0x9F, 0x4D, 0x51, 0x58]);
    assert_eq!(mask_data(key, &masked), data);
}

#[test]
fn frame_round_trip() {
    let frame = message_to_dataframe(&Message::Binary(vec![1, 2, 3]), Some([5, 6, 7, 8]), true);
    let mut bytes = Vec::new();
    write_dataframe(&mut bytes, &frame).unwrap();
    assert_eq!(frames_of(&bytes), vec![frame]);
}

#[test]
fn short_payload_consumes_nothing() {
    let header = DataFrameHeader { flags: DataFrameFlags::fin(), opcode: 2, mask: None, len: 3 };
    let mut reader = ByteReader::new(vec![1, 2]);
    assert_eq!(read_payload(&mut reader, &header), Err(WebSocketError::IoError));
    assert_eq!(reader.remaining(), 2);
}

#[test]
fn oversized_control_message_is_not_sent() {
    let mut sender = new_sender(false);
    assert!(sender.send_message(&Message::Ping(vec![0; 126]), [0; 4]).is_err());
    assert!(sender.take_output().is_empty());
}

#[test]
fn handshake_digest() {
    assert_eq!(accept_key("dGhlIHNhbXBsZSBub25jZQ=="), "s3pPLMBiTxaQ9kYGzzhZRbK+xOo=");
}

fn request(headers: &[(&str, &str)]) -> Request {
    Request {
        method: "GET".to_string(),
        path: "/chat".to_string(),
        version_major: 1,
        version_minor: 1,
        headers: headers
            .iter()
            .map(|(n, v)| Header { name: n.to_string(), value: v.to_string() })
            .collect(),
    }
}

const GOOD: [(&str, &str); 5] = [
    ("Host", "example.com"),
    ("Upgrade", "websocket"),
    ("Connection", "Upgrade"),
    ("Sec-WebSocket-Version", "13"),
    ("Sec-WebSocket-Key", "dGhlIHNhbXBsZSBub25jZQ=="),
];

#[test]
fn handshake_accept() {
    let response = accept_request(&request(&GOOD)).unwrap();
    assert_eq!(response.status, 101);
    assert_eq!(
        response.headers,
        vec![
            Header { name: "Upgrade".to_string(), value: "websocket".to_string() },
            Header { name: "Connection".to_string(), value: "Upgrade".to_string() },
            Header {
                name: "Sec-WebSocket-Accept".to_string(),
                value: "s3pPLMBiTxaQ9kYGzzhZRbK+xOo=".to_string()
            },
        ]
    );
}

#[test]
fn handshake_accepts_token_lists_and_case() {
    let mut headers = GOOD.to_vec();
    headers[1] = ("upgrade", "WebSocket");
    headers[2] = ("connection", "keep-alive, upgrade");
    assert_eq!(accept_request(&request(&headers)).unwrap().status, 101);
}

#[test]
fn handshake_rejections() {
    let fail = |k| Err(WebSocketError::HandshakeError(k));
    let mut post = request(&GOOD);
    post.method = "POST".to_string();
    assert_eq!(accept_request(&post), fail(HandshakeErrorKind::InvalidMethod));
    let mut old = request(&GOOD);
    old.version_minor = 0;
    assert_eq!(accept_request(&old), fail(HandshakeErrorKind::InvalidHttpVersion));
    let mut h = GOOD.to_vec();
    h[1] = ("Upgrade", "h2c");
    assert_eq!(accept_request(&request(&h)), fail(HandshakeErrorKind::NoUpgrade));
    let mut h = GOOD.to_vec();
    h[2] = ("Connection", "keep-alive");
    assert_eq!(accept_request(&request(&h)), fail(HandshakeErrorKind::NoConnectionUpgrade));
    let mut h = GOOD.to_vec();
    h[3] = ("Sec-WebSocket-Version", "8");
    assert_eq!(accept_request(&request(&h)), fail(HandshakeErrorKind::UnsupportedVersion));
    let mut h = GOOD.to_vec();
    h[4] = ("Sec-WebSocket-Key", "c2hvcnQ=");
    assert_eq!(accept_request(&request(&h)), fail(HandshakeErrorKind::InvalidKey));
    let reject = reject_response(HandshakeErrorKind::UnsupportedVersion);
    assert_eq!(reject.status, 426);
    assert_eq!(
        reject.headers,
        vec![Header { name: "Sec-WebSocket-Version".to_string(), value: "13".to_string() }]
    );
    assert_eq!(reject_response(HandshakeErrorKind::InvalidKey).status, 400);
}

#[test]
fn frame_reader_resumes_across_reads() {
    let mut reader = ByteReader::new(vec![0x82, 0x03, 1]);
    let mut frames = FrameReader::new();
    assert_eq!(frames.read_frame(&mut reader), Err(WebSocketError::IoError));
    reader.extend(&[2]);
    assert_eq!(frames.read_frame(&mut reader), Err(WebSocketError::IoError));
    reader.extend(&[3, 0x81]);
    let frame = frames.read_frame(&mut reader).unwrap();
    assert_eq!(frame.data, vec![1, 2, 3]);
    assert_eq!(frame.header.opcode, 2);
    assert_eq!(frames.read_frame(&mut reader), Err(WebSocketError::IoError));
    reader.extend(&[0x00]);
    assert_eq!(frames.read_frame(&mut reader).unwrap().data, Vec::<u8>::new());
}

#[test]
fn client_checks_the_accept_value() {
    let key = "dGhlIHNhbXBsZSBub25jZQ==";
    assert!(check_accept(key, &"s3pPLMBiTxaQ9kYGzzhZRbK+xOo=".to_string()));
    assert!(!check_accept(key, &"s3pPLMBiTxaQ9kYGzzhZRbK+xOp=".to_string()));
}

#[test]
fn control_messages_are_not_sent_in_pieces() {
    let mut sender = new_sender(false);
    {
        let mut pieces = sender.fragment();
        let refused = Err(WebSocketError::ProtocolError(ProtocolErrorKind::FragmentedControl));
        assert_eq!(pieces.send_fragment(&Message::Ping(vec![]), [0; 4]), refused);
        assert_eq!(pieces.send_fragment(&Message::Close(None), [0; 4]), refused);
        pieces.send_fragment(&Message::Binary(vec![1]), [0; 4]).unwrap();
        assert_eq!(pieces.finish(&Message::Pong(vec![2]), [0; 4]), refused);
        pieces.finish(&Message::Binary(vec![3]), [0; 4]).unwrap();
    }
    assert_eq!(sender.take_output(), vec![0x02, 0x01, 1, 0x80, 0x01, 3]);
}

#[test]
fn invalid_close_codes_are_not_sent() {
    let mut sender = new_sender(false);
    let close = Message::Close(Some(CloseData { status_code: 1012, reason: String::new() }));
    assert_eq!(
        sender.send_message(&close, [0; 4]),
        Err(WebSocketError::ProtocolError(ProtocolErrorKind::InvalidClosePayload))
    );
    let long_reason = Message::Close(Some(CloseData { status_code: 1000, reason: "x".repeat(124) }));
    assert_eq!(
        sender.send_message(&long_reason, [0; 4]),
        Err(WebSocketError::DataFrameError(websocket::error::DataFrameErrorKind::ControlFrameTooLong))
    );
    assert!(sender.take_output().is_empty());
}

#[test]
fn pending_header_is_visible_before_its_payload() {
    let mut reader = ByteReader::new(vec![0x82, 0x7F, 0, 0, 0, 0, 0, 1, 0, 0]);
    let mut frames = FrameReader::new();
    assert_eq!(frames.read_frame(&mut reader), Err(WebSocketError::IoError));
    let header = frames.pending_header().unwrap();
    assert_eq!(header.len, 65536);
    let client = MessageAssembler::new(false, 1024);
    assert_eq!(client.check_length(&header), Err(WebSocketError::Oversized));
}
