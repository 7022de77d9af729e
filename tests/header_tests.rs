use websocket::error::{DataFrameErrorKind, ProtocolErrorKind, WebSocketError};
use websocket::header::{read_header, write_header, DataFrameFlags, DataFrameHeader, ReaderState};
use websocket::reader::ByteReader;

fn read_all(bytes: &[u8]) -> Result<DataFrameHeader, WebSocketError> {
    let mut reader = ByteReader::new(bytes.to_vec());
    let mut state = ReaderState::new();
    read_header(&mut reader, &mut state)
}

#[test]
fn test_read_header_simple() {
    let header = [0x81, 0x2B];
    let obtained = read_all(&header[..]).unwrap();
    let expected = DataFrameHeader {
        flags: DataFrameFlags::fin(),
        opcode: 1,
        mask: None,
        len: 43,
    };
    assert_eq!(obtained, expected);
}

#[test]
fn test_write_header_simple() {
    let header = DataFrameHeader {
        flags: DataFrameFlags::fin(),
        opcode: 1,
        mask: None,
        len: 43,
    };
    let expected = [0x81, 0x2B];
    let mut obtained = Vec::with_capacity(2);
    write_header(&mut obtained, header).unwrap();

    assert_eq!(&obtained[..], &expected[..]);
}

#[test]
fn test_read_header_complex() {
    let header = [0x42, 0xFE, 0x02, 0x00, 0x02, 0x04, 0x08, 0x10];
    let obtained = read_all(&header[..]).unwrap();
    let expected = DataFrameHeader {
        flags: DataFrameFlags::rsv1(),
        opcode: 2,
        mask: Some([2, 4, 8, 16]),
        len: 512,
    };
    assert_eq!(obtained, expected);
}

#[test]
fn test_write_header_complex() {
    let header = DataFrameHeader {
        flags: DataFrameFlags::rsv1(),
        opcode: 2,
        mask: Some([2, 4, 8, 16]),
        len: 512,
    };
    let expected = [0x42, 0xFE, 0x02, 0x00, 0x02, 0x04, 0x08, 0x10];
    let mut obtained = Vec::with_capacity(8);
    write_header(&mut obtained, header).unwrap();

    assert_eq!(&obtained[..], &expected[..]);
}

#[test]
fn header_round_trip_eight_byte_length() {
    let header = DataFrameHeader {
        flags: DataFrameFlags::fin(),
        opcode: 2,
        mask: Some([9, 8, 7, 6]),
        len: 0x0123_4567_89AB,
    };
    let mut bytes = Vec::new();
    write_header(&mut bytes, header).unwrap();
    assert_eq!(
        bytes,
        vec![0x82, 0xFF, 0, 0, 0x01, 0x23, 0x45, 0x67, 0x89, 0xAB, 9, 8, 7, 6]
    );
    bytes.push(0xEE);
    let mut reader = ByteReader::new(bytes);
    let mut state = ReaderState::new();
    assert_eq!(read_header(&mut reader, &mut state), Ok(header));
    assert_eq!(reader.remaining(), 1);
    assert!(state.is_empty());
}

#[test]
fn header_length_boundaries() {
    for (len, expected) in [
        (125u64, vec![0x82u8, 125]),
        (126u64, vec![0x82, 126, 0, 126]),
        (65535u64, vec![0x82, 126, 0xFF, 0xFF]),
        (65536u64, vec![0x82, 127, 0, 0, 0, 0, 0, 1, 0, 0]),
    ] {
        let header = DataFrameHeader { flags: DataFrameFlags::fin(), opcode: 2, mask: None, len };
        let mut bytes = Vec::new();
        write_header(&mut bytes, header).unwrap();
        assert_eq!(bytes, expected);
        assert_eq!(read_all(&bytes), Ok(header));
    }
}

#[test]
fn read_header_resumes_after_short_read() {
    let mut reader = ByteReader::new(vec![0x82, 0xFE, 0x02]);
    let mut state = ReaderState::new();
    assert_eq!(read_header(&mut reader, &mut state), Err(WebSocketError::IoError));
    assert!(!state.is_empty());
    reader.extend(&[0x00, 0x02, 0x04]);
    assert_eq!(read_header(&mut reader, &mut state), Err(WebSocketError::IoError));
    reader.extend(&[0x08, 0x10, 0x55]);
    let expected = DataFrameHeader {
        flags: DataFrameFlags::fin(),
        opcode: 2,
        mask: Some([2, 4, 8, 16]),
        len: 512,
    };
    assert_eq!(read_header(&mut reader, &mut state), Ok(expected));
    assert!(state.is_empty());
    assert_eq!(reader.remaining(), 1);
}

#[test]
fn read_header_refuses_non_minimal_lengths() {
    let err = Err(WebSocketError::DataFrameError(DataFrameErrorKind::InvalidLength));
    assert_eq!(read_all(&[0x82, 126, 0, 125]), err);
    assert_eq!(read_all(&[0x82, 127, 0, 0, 0, 0, 0, 0, 0xFF, 0xFF]), err);
    let mut reader = ByteReader::new(vec![0x82, 0xFE, 0, 5, 1, 2, 3, 4]);
    let mut state = ReaderState::new();
    assert_eq!(read_header(&mut reader, &mut state), err);
    assert!(state.is_empty());
    assert_eq!(reader.remaining(), 4);
}

#[test]
fn control_frames_over_125_bytes_are_refused() {
    let header = DataFrameHeader { flags: DataFrameFlags::fin(), opcode: 9, mask: None, len: 126 };
    let mut bytes = Vec::new();
    assert_eq!(
        write_header(&mut bytes, header),
        Err(WebSocketError::DataFrameError(DataFrameErrorKind::ControlFrameTooLong))
    );
    assert!(bytes.is_empty());
    assert_eq!(
        read_all(&[0x89, 126, 0, 126]),
        Err(WebSocketError::DataFrameError(DataFrameErrorKind::ControlFrameTooLong))
    );
}

#[test]
fn write_header_refuses_bad_opcode_and_huge_length() {
    let mut bytes = Vec::new();
    let bad_opcode = DataFrameHeader { flags: DataFrameFlags::fin(), opcode: 16, mask: None, len: 0 };
    assert_eq!(
        write_header(&mut bytes, bad_opcode),
        Err(WebSocketError::DataFrameError(DataFrameErrorKind::InvalidOpcode))
    );
    let huge = DataFrameHeader { flags: DataFrameFlags::fin(), opcode: 2, mask: None, len: 1u64 << 63 };
    assert_eq!(
        write_header(&mut bytes, huge),
        Err(WebSocketError::DataFrameError(DataFrameErrorKind::InvalidLength))
    );
    assert!(bytes.is_empty());
}

#[test]
fn reject_fragmented_control() {
    let result = read_all(&[0x09, 0x00]);
    assert_eq!(
        result,
        Err(WebSocketError::ProtocolError(ProtocolErrorKind::FragmentedControl))
    );
    assert_eq!(result.unwrap_err().close_code(), Some(1002));
}

#[test]
fn flags_helpers() {
    let flags = DataFrameFlags::from_bits_truncate(0xC3);
    assert_eq!(flags.bits, 0xC0);
    assert!(flags.contains(DataFrameFlags::fin()));
    assert!(flags.contains(DataFrameFlags::rsv1()));
    assert!(!flags.contains(DataFrameFlags::rsv2()));
    assert_eq!(DataFrameFlags::rsv2().union(DataFrameFlags::rsv3()).bits, 0x30);
}
