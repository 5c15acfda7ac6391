//! Frames and their bytes.

use uart_matmul::bytes::{push_u16_le, push_words_le, read_u16_le, read_u32_le};
use uart_matmul::crc::{crc8, generate_crc8_table};
use uart_matmul::error::FrameError;
use uart_matmul::protocol::{
    encode_frame, parse_f32_slice, Frame, MatrixDims, HEAD_BYTE, MAX_PAYLOAD_LEN,
};

fn bits(values: &[f32]) -> Vec<u32> {
    values.iter().map(|v| v.to_bits()).collect()
}

fn floats(words: &[u32]) -> Vec<f32> {
    words.iter().map(|w| f32::from_bits(*w)).collect()
}

#[test]
fn test_crc8_known() {
    // CRC-8/MAXIM for "123456789" should be 0xA1
    assert_eq!(crc8(b"123456789"), 0xA1);
}

#[test]
fn test_request_frame_roundtrip() {
    let frame = Frame::Request {
        seq: 3,
        dims_a: MatrixDims { rows: 2, cols: 3 },
        dims_b: MatrixDims { rows: 3, cols: 2 },
        data: bits(&[1.0, 2.0, 3.0, 4.0, 5.0, 6.0, 7.0, 8.0, 9.0, 10.0, 11.0, 12.0]),
    };
    let bytes = frame.to_bytes();
    assert_eq!(bytes[0], HEAD_BYTE);
    let len = u16::from_le_bytes([bytes[1], bytes[2]]) as usize;
    let payload = &bytes[3..3 + len];
    let parsed = Frame::from_payload(payload).unwrap();
    match parsed {
        Frame::Request { seq, dims_a, dims_b, data } => {
            let data = floats(&data);
            assert_eq!(seq, 3);
            assert_eq!(dims_a.rows, 2);
            assert_eq!(dims_a.cols, 3);
            assert_eq!(dims_b.rows, 3);
            assert_eq!(dims_b.cols, 2);
            assert_eq!(data.len(), 12);
            assert!((data[0] - 1.0).abs() < f32::EPSILON);
        }
        _ => panic!("Expected Request frame"),
    }
}

#[test]
fn test_result_frame_roundtrip() {
    let frame = Frame::Result {
        seq: 7,
        dims: MatrixDims { rows: 2, cols: 2 },
        data: bits(&[58.0, 64.0, 139.0, 154.0]),
    };
    let bytes = frame.to_bytes();
    let len = u16::from_le_bytes([bytes[1], bytes[2]]) as usize;
    let payload = &bytes[3..3 + len];
    let parsed = Frame::from_payload(payload).unwrap();
    match parsed {
        Frame::Result { seq, dims, data } => {
            assert_eq!(seq, 7);
            assert_eq!(dims.rows, 2);
            assert_eq!(dims.cols, 2);
            assert_eq!(data.len(), 4);
            assert_eq!(floats(&data), vec![58.0, 64.0, 139.0, 154.0]);
        }
        _ => panic!("Expected Result frame"),
    }
}

#[test]
fn test_error_frame_roundtrip() {
    let frame = Frame::Error { code: 0x01 };
    let bytes = frame.to_bytes();
    let len = u16::from_le_bytes([bytes[1], bytes[2]]) as usize;
    let payload = &bytes[3..3 + len];
    let parsed = Frame::from_payload(payload).unwrap();
    match parsed {
        Frame::Error { code } => assert_eq!(code, 0x01),
        _ => panic!("Expected Error frame"),
    }
}

#[test]
fn error_frame_bytes_are_fixed() {
    let bytes = Frame::Error { code: 0x02 }.to_bytes();
    assert_eq!(bytes[..4], [0xAA, 0x01, 0x00, 0x02]);
    assert_eq!(bytes[4], crc8(&[0x01, 0x00, 0x02]));
    assert_eq!(bytes.len(), 5);
}

#[test]
fn result_frame_layout() {
    let bytes = Frame::Result {
        seq: 9,
        dims: MatrixDims { rows: 1, cols: 1 },
        data: vec![0x0403_0201],
    }
    .to_bytes();
    assert_eq!(&bytes[..12], &[0xAA, 9, 0, 9, 1, 1, 0, 0, 1, 2, 3, 4]);
    assert_eq!(bytes[12], crc8(&bytes[1..12]));
}

#[test]
fn table_entries_match_the_bitwise_checksum() {
    let table = generate_crc8_table();
    assert_eq!(table[0], 0x00);
    assert_eq!(table[1], 0x5E);
    assert_eq!(table[255], 0x35);
    for b in 0..=255u8 {
        assert_eq!(crc8(&[b]), table[b as usize]);
    }
}

#[test]
fn checksum_of_two_parts_and_of_a_changed_byte() {
    let whole = b"matrix frames";
    let mut changed = *whole;
    changed[4] ^= 0x10;
    assert_ne!(crc8(whole), crc8(&changed));
    assert_eq!(crc8(&[]), 0);
}

#[test]
fn bad_payloads_are_invalid_frames() {
    let bad: [&[u8]; 4] = [&[], &[1, 2], &[0, 1, 1, 0, 0, 9, 9, 9], &[0, 1, 1, 1, 1, 0, 0, 0, 0]];
    for payload in bad {
        match Frame::from_payload(payload) {
            Err(FrameError::InvalidFrame) => {}
            other => panic!("Expected InvalidFrame, got {:?}", other),
        }
    }
}

#[test]
fn a_second_shape_of_zeros_marks_a_result() {
    let payload = [5, 0, 7, 0, 0];
    match Frame::from_payload(&payload).unwrap() {
        Frame::Result { seq, dims, data } => {
            assert_eq!(seq, 5);
            assert_eq!(dims, MatrixDims { rows: 0, cols: 7 });
            assert!(data.is_empty());
        }
        other => panic!("Expected Result frame, got {:?}", other),
    }
}

#[test]
fn elements_are_little_endian() {
    assert_eq!(parse_f32_slice(&[1, 0, 0, 0, 0, 1, 0, 0], 2).unwrap(), vec![1, 256]);
    assert!(matches!(parse_f32_slice(&[1, 0, 0], 1), Err(FrameError::InvalidFrame)));
    let mut out = Vec::new();
    push_u16_le(&mut out, 0x1234);
    push_words_le(&mut out, &vec![0xDEAD_BEEF]);
    assert_eq!(out, vec![0x34, 0x12, 0xEF, 0xBE, 0xAD, 0xDE]);
    assert_eq!(read_u16_le(0x34, 0x12), 0x1234);
    assert_eq!(read_u32_le(0xEF, 0xBE, 0xAD, 0xDE), 0xDEAD_BEEF);
}

#[test]
fn the_length_field_keeps_sixteen_bits() {
    let bytes = encode_frame(&vec![0u8; 0x1_0003]);
    assert_eq!(&bytes[1..3], &[3, 0]);
    assert_eq!(bytes.len(), 0x1_0003 + 4);
}

#[test]
fn kinds_have_names() {
    let dims = MatrixDims { rows: 1, cols: 1 };
    assert_eq!(Frame::Error { code: 1 }.kind_name(), "Error");
    assert_eq!(Frame::Result { seq: 0, dims, data: vec![0] }.kind_name(), "Result");
    let request = Frame::Request { seq: 0, dims_a: dims, dims_b: dims, data: vec![0, 0] };
    assert_eq!(request.kind_name(), "Request");
    assert_eq!(dims.count(), 1);
    assert_eq!(MatrixDims { rows: 255, cols: 255 }.count(), 65025);
    assert_eq!(MAX_PAYLOAD_LEN, 16384);
}
