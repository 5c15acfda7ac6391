//! Frames in a stream of bytes.

use uart_matmul::error::FrameError;
use uart_matmul::frame_reader::FrameReader;
use uart_matmul::protocol::{Frame, MatrixDims};

fn bits(values: &[f32]) -> Vec<u32> {
    values.iter().map(|v| v.to_bits()).collect()
}

#[test]
fn test_error_frame_from_buffer() {
    let frame = Frame::Error { code: 0x01 };
    let bytes = frame.to_bytes();
    let mut input = vec![0x00, 0xFF, 0x55];
    input.extend_from_slice(&bytes);

    let mut reader = FrameReader::new();
    reader.feed_data(&input);

    let result = reader.try_advance();
    assert!(result.is_some());
    let frame_result = result.unwrap();
    assert!(frame_result.is_ok());
    match frame_result.unwrap() {
        Frame::Error { code } => assert_eq!(code, 0x01),
        _ => panic!("Expected Error frame"),
    }
}

#[test]
fn test_request_frame_from_buffer() {
    let frame = Frame::Request {
        seq: 0,
        dims_a: MatrixDims { rows: 2, cols: 2 },
        dims_b: MatrixDims { rows: 2, cols: 2 },
        data: bits(&[1.0, 0.0, 0.0, 1.0, 2.0, 0.0, 0.0, 2.0]),
    };
    let bytes = frame.to_bytes();

    let mut reader = FrameReader::new();
    reader.feed_data(&bytes);

    let result = reader.try_advance();
    assert!(result.is_some());
    let frame_result = result.unwrap();
    assert!(frame_result.is_ok());
    match frame_result.unwrap() {
        Frame::Request { dims_a, dims_b, .. } => {
            assert_eq!(dims_a.rows, 2);
            assert_eq!(dims_b.rows, 2);
        }
        _ => panic!("Expected Request frame"),
    }
}

#[test]
fn test_incomplete_frame_returns_none() {
    let frame = Frame::Error { code: 0x01 };
    let bytes = frame.to_bytes();

    let mut reader = FrameReader::new();
    reader.feed_data(&bytes[..2]);

    let result = reader.try_advance();
    assert!(result.is_none());
}

#[test]
fn test_crc_mismatch_detected() {
    let frame = Frame::Error { code: 0x01 };
    let mut bytes = frame.to_bytes();
    let last = bytes.len() - 1;
    bytes[last] ^= 0xFF;

    let mut reader = FrameReader::new();
    reader.feed_data(&bytes);

    let result = reader.try_advance();
    assert!(result.is_some());
    match result.unwrap() {
        Err(FrameError::CrcMismatch { .. }) => {}
        other => panic!("Expected CrcMismatch, got {:?}", other),
    }
}

#[test]
fn the_mismatch_names_both_checksums() {
    let mut bytes = Frame::Error { code: 0x01 }.to_bytes();
    let good = bytes[4];
    bytes[4] = good ^ 0x01;
    let mut reader = FrameReader::new();
    reader.feed_data(&bytes);
    match reader.try_advance() {
        Some(Err(FrameError::CrcMismatch { expected, actual })) => {
            assert_eq!(expected, good);
            assert_eq!(actual, good ^ 0x01);
        }
        other => panic!("Expected CrcMismatch, got {:?}", other),
    }
    assert!(reader.try_advance().is_none());
}

#[test]
fn pieces_give_the_same_frames_as_the_whole() {
    let mut stream = vec![1, 2, 3];
    for code in 0..20u8 {
        stream.extend_from_slice(&Frame::Error { code }.to_bytes());
        stream.push(0x11);
    }
    for size in 1..12usize {
        let mut reader = FrameReader::new();
        let mut codes = Vec::new();
        for piece in stream.chunks(size) {
            reader.feed_data(piece);
            while let Some(found) = reader.try_advance() {
                match found {
                    Ok(Frame::Error { code }) => codes.push(code),
                    other => panic!("Expected Error frame, got {:?}", other),
                }
            }
        }
        assert_eq!(codes, (0..20u8).collect::<Vec<u8>>());
    }
}

#[test]
fn lengths_outside_the_limits_are_oversize() {
    let mut reader = FrameReader::new();
    reader.feed_data(&[0xAA, 0x00, 0x00]);
    assert!(matches!(reader.try_advance(), Some(Err(FrameError::Oversize(0)))));
    reader.feed_data(&[0xAA, 0x01, 0x40]);
    assert!(matches!(reader.try_advance(), Some(Err(FrameError::Oversize(16385)))));
    reader.feed_data(&[0xAA, 0x00, 0x40]);
    assert!(reader.try_advance().is_none());
    assert_eq!(reader.state_name(), "ReadingData");
}

#[test]
fn a_good_checksum_over_nonsense_is_an_invalid_frame() {
    let bytes = uart_matmul::protocol::encode_frame(&vec![1, 2, 3]);
    let mut reader = FrameReader::new();
    reader.feed_data(&bytes);
    assert!(matches!(reader.try_advance(), Some(Err(FrameError::InvalidFrame))));
}

#[test]
fn the_reader_names_its_state() {
    let mut reader = FrameReader::new();
    assert_eq!(reader.state_name(), "Syncing");
    reader.feed_data(&[0x00, 0xAA]);
    assert!(reader.try_advance().is_none());
    assert_eq!(reader.state_name(), "ReadingLen");
    reader.feed_data(&[0x01]);
    assert!(reader.try_advance().is_none());
    assert_eq!(reader.state_name(), "ReadingLen");
}

#[test]
fn a_reader_that_holds_too_much_starts_over() {
    let mut reader = FrameReader::new();
    reader.feed_data(&vec![0xAA; 40000]);
    reader.feed_data(&Frame::Error { code: 9 }.to_bytes());
    match reader.try_advance() {
        Some(Ok(Frame::Error { code })) => assert_eq!(code, 9),
        other => panic!("Expected Error frame, got {:?}", other),
    }
}
