//! Products of matrices, and the way of a request over the line and back.

use nalgebra::DMatrix;
use uart_matmul::compute::{operands, process_frame, MatrixResult};
use uart_matmul::error::{ComputeError, FrameError};
use uart_matmul::frame_reader::FrameReader;
use uart_matmul::pipeline::{SenderRun, SenderStep};
use uart_matmul::protocol::{Frame, MatrixDims};
use uart_matmul::receiver::{
    compute_one_frame, frame_summary, on_data, respond, write_error_frame, Action,
};
use uart_matmul::rng::Lcg;
use uart_matmul::sender::{
    build_request, nth_request, print_response, Received, ResponseCollector, Shown,
};

fn bits(values: &[f32]) -> Vec<u32> {
    values.iter().map(|v| v.to_bits()).collect()
}

/// The product that a frame asks for, column by column; nothing if it is refused.
fn product_of(frame: &Frame) -> Vec<u32> {
    match operands(frame) {
        Ok(ops) => {
            let a: Vec<f32> = ops.a.iter().map(|w| f32::from_bits(*w)).collect();
            let b: Vec<f32> = ops.b.iter().map(|w| f32::from_bits(*w)).collect();
            let a = DMatrix::from_row_slice(ops.dims_a.rows as usize, ops.dims_a.cols as usize, &a);
            let b = DMatrix::from_row_slice(ops.dims_b.rows as usize, ops.dims_b.cols as usize, &b);
            bits((&a * &b).as_slice())
        }
        Err(_) => Vec::new(),
    }
}

fn processed(frame: &Frame) -> Result<MatrixResult, ComputeError> {
    process_frame(frame, &product_of(frame))
}

fn element(result: &MatrixResult, i: usize) -> f32 {
    f32::from_bits(result.data[i])
}

#[test]
fn test_identity_multiplication() {
    let frame = Frame::Request {
        seq: 0,
        dims_a: MatrixDims { rows: 2, cols: 2 },
        dims_b: MatrixDims { rows: 2, cols: 2 },
        data: bits(&[1.0, 0.0, 0.0, 1.0, 5.0, 6.0, 7.0, 8.0]),
    };
    let result = processed(&frame).unwrap();
    assert_eq!(result.rows, 2);
    assert_eq!(result.cols, 2);
    assert!((element(&result, 0) - 5.0).abs() < 1e-5);
    assert!((element(&result, 1) - 6.0).abs() < 1e-5);
    assert!((element(&result, 2) - 7.0).abs() < 1e-5);
    assert!((element(&result, 3) - 8.0).abs() < 1e-5);
}

#[test]
fn test_2x3_times_3x2() {
    // A = [[1,2,3],[4,5,6]], B = [[7,8],[9,10],[11,12]]
    // A*B = [[58,64],[139,154]]
    let frame = Frame::Request {
        seq: 0,
        dims_a: MatrixDims { rows: 2, cols: 3 },
        dims_b: MatrixDims { rows: 3, cols: 2 },
        data: bits(&[1.0, 2.0, 3.0, 4.0, 5.0, 6.0, 7.0, 8.0, 9.0, 10.0, 11.0, 12.0]),
    };
    let result = processed(&frame).unwrap();
    assert_eq!(result.rows, 2);
    assert_eq!(result.cols, 2);
    assert!((element(&result, 0) - 58.0).abs() < 1e-4);
    assert!((element(&result, 1) - 64.0).abs() < 1e-4);
    assert!((element(&result, 2) - 139.0).abs() < 1e-4);
    assert!((element(&result, 3) - 154.0).abs() < 1e-4);
}

#[test]
fn test_dimension_mismatch() {
    let frame = Frame::Request {
        seq: 0,
        dims_a: MatrixDims { rows: 2, cols: 3 },
        dims_b: MatrixDims { rows: 2, cols: 2 },
        data: bits(&[1.0, 2.0, 3.0, 4.0, 5.0, 6.0, 7.0, 8.0, 9.0, 10.0]),
    };
    match processed(&frame) {
        Err(ComputeError::DimensionMismatch) => {}
        other => panic!("Expected DimensionMismatch, got {:?}", other),
    }
}

#[test]
fn test_1x1_scalar() {
    let frame = Frame::Request {
        seq: 0,
        dims_a: MatrixDims { rows: 1, cols: 1 },
        dims_b: MatrixDims { rows: 1, cols: 1 },
        data: bits(&[3.0, 4.0]),
    };
    let result = processed(&frame).unwrap();
    assert_eq!(result.data.len(), 1);
    assert!((element(&result, 0) - 12.0).abs() < 1e-5);
}

#[test]
fn columns_go_out_as_rows() {
    let frame = Frame::Request {
        seq: 0,
        dims_a: MatrixDims { rows: 2, cols: 1 },
        dims_b: MatrixDims { rows: 1, cols: 3 },
        data: vec![0; 5],
    };
    let result = process_frame(&frame, &vec![11, 21, 12, 22, 13, 23]).unwrap();
    assert_eq!(result.data, vec![11, 12, 13, 21, 22, 23]);
}

#[test]
fn frames_that_ask_for_nothing_are_invalid() {
    let missing = Frame::Request {
        seq: 1,
        dims_a: MatrixDims { rows: 1, cols: 1 },
        dims_b: MatrixDims { rows: 1, cols: 1 },
        data: vec![0],
    };
    assert!(matches!(processed(&missing), Err(ComputeError::InvalidFrame)));
    assert!(matches!(processed(&Frame::Error { code: 1 }), Err(ComputeError::InvalidFrame)));
    let empty = Frame::Request {
        seq: 1,
        dims_a: MatrixDims { rows: 0, cols: 4 },
        dims_b: MatrixDims { rows: 4, cols: 2 },
        data: vec![0; 8],
    };
    let result = processed(&empty).unwrap();
    assert_eq!((result.rows, result.cols, result.data.len()), (0, 2, 0));
}

#[test]
fn refused_requests_are_answered_with_their_code() {
    let dims = MatrixDims { rows: 1, cols: 2 };
    let frame = Frame::Request { seq: 4, dims_a: dims, dims_b: dims, data: vec![0; 4] };
    assert_eq!(compute_one_frame(&frame, &Vec::new()), Frame::Error { code: 1 }.to_bytes());
    let stray = Frame::Error { code: 9 };
    assert_eq!(compute_one_frame(&stray, &Vec::new()), Frame::Error { code: 3 }.to_bytes());
    assert_eq!(write_error_frame(2), Frame::Error { code: 2 }.to_bytes());
}

#[test]
fn damaged_frames_are_reported_and_cost_only_themselves() {
    let mut stream = Frame::Error { code: 7 }.to_bytes();
    stream[3] ^= 0x40;
    stream.extend_from_slice(&Frame::Error { code: 8 }.to_bytes());
    stream.extend_from_slice(&[0xAA, 0x00, 0x00]);
    let mut reader = FrameReader::new();
    let actions = on_data(&mut reader, &stream);
    assert_eq!(actions.len(), 3);
    match &actions[0] {
        Action::Reply { bytes, expected, actual } => {
            assert_eq!(*bytes, Frame::Error { code: 2 }.to_bytes());
            assert_ne!(expected, actual);
        }
        other => panic!("Expected Reply, got {:?}", other),
    }
    assert!(matches!(&actions[1], Action::Compute(Frame::Error { code: 8 })));
    assert!(matches!(&actions[2], Action::Ignore(FrameError::Oversize(0))));
}

#[test]
fn a_run_of_requests_comes_back_in_order() {
    let mut line = Vec::new();
    for i in 0..5 {
        line.extend_from_slice(&nth_request(2, 3, 2, i).to_bytes());
    }
    let mut far = FrameReader::new();
    let mut answers = Vec::new();
    for action in on_data(&mut far, &line) {
        match action {
            Action::Compute(frame) => answers.push(respond(&frame, &product_of(&frame))),
            other => panic!("Expected Compute, got {:?}", other),
        }
    }
    answers.reverse();
    let again = answers[1].to_bytes();
    let mut back = Vec::new();
    for answer in &answers {
        back.extend_from_slice(&answer.to_bytes());
    }
    let mut near = FrameReader::new();
    let mut collector = ResponseCollector::new(5);
    near.feed_data(&back[..again.len() * 2]);
    near.feed_data(&again);
    let reports = collector.collect(&mut near);
    assert!(matches!(reports[0], Received::Stored { number: 4, count: 1 }));
    assert!(matches!(reports[1], Received::Stored { number: 3, count: 2 }));
    assert!(matches!(reports[2], Received::Repeated { number: 3 }));
    assert!(!collector.complete());
    near.feed_data(&back[again.len() * 2..]);
    assert_eq!(collector.collect(&mut near).len(), 3);
    assert!(collector.complete());
    for number in 0..5usize {
        match collector.response(number) {
            Some(Frame::Result { seq, dims, data }) => {
                assert_eq!(*seq as usize, number);
                assert_eq!(*dims, MatrixDims { rows: 2, cols: 2 });
                assert_eq!(data.len(), 4);
            }
            other => panic!("Expected Result frame, got {:?}", other),
        }
    }
}

#[test]
fn a_pipeline_sends_all_then_reads_then_shows() {
    let mut run = SenderRun::new(3);
    assert_eq!(run.next(true), SenderStep::Interrupted);
    let mut line = Vec::new();
    let mut sent = Vec::new();
    while let SenderStep::Send(i) = run.next(false) {
        line.extend_from_slice(&nth_request(2, 3, 2, i).to_bytes());
        sent.push(i);
        run.request_sent();
    }
    assert_eq!(sent, vec![0, 1, 2]);
    let mut far = FrameReader::new();
    let mut answers = Vec::new();
    for action in on_data(&mut far, &line) {
        match action {
            Action::Compute(frame) => answers.push(compute_one_frame(&frame, &product_of(&frame))),
            other => panic!("Expected Compute, got {:?}", other),
        }
    }
    assert_eq!(run.next(true), SenderStep::Interrupted);
    assert!(run.bytes_came(&[]).is_empty());
    for (nth, number) in [2usize, 0, 1].iter().enumerate() {
        assert_eq!(run.next(false), SenderStep::Receive);
        let reports = run.bytes_came(&answers[*number]);
        match reports.as_slice() {
            [Received::Stored { number: n, count }] => assert_eq!((n, *count), (number, nth + 1)),
            other => panic!("Expected one answer, got {:?}", other),
        }
    }
    for number in 0..3usize {
        assert_eq!(run.next(true), SenderStep::Show(number));
        assert!(matches!(
            run.response(number),
            Some(Frame::Result { seq, .. }) if *seq as usize == number
        ));
        run.answer_shown();
    }
    assert_eq!(run.next(false), SenderStep::Done);
}

#[test]
fn the_first_result_with_a_number_is_shown_whatever_the_pieces() {
    let result = |seq: u8, word: u32| {
        Frame::Result { seq, dims: MatrixDims { rows: 1, cols: 1 }, data: vec![word] }.to_bytes()
    };
    let mut run = SenderRun::new(2);
    run.request_sent();
    run.request_sent();
    let mut line = vec![0u8, 1];
    line.extend_from_slice(&result(1, 11));
    line.extend_from_slice(&result(1, 12));
    line.extend_from_slice(&result(0, 10));
    line.extend_from_slice(&result(0, 13));
    for piece in line.chunks(3) {
        if run.next(false) == SenderStep::Receive {
            run.bytes_came(piece);
        }
    }
    assert_eq!(run.next(false), SenderStep::Show(0));
    for (number, word) in [(0usize, 10u32), (1, 11)] {
        assert!(matches!(run.response(number), Some(Frame::Result { data, .. }) if data[0] == word));
    }
}

#[test]
fn a_pipeline_ends_when_the_line_fails_or_nothing_is_asked() {
    assert_eq!(SenderRun::new(0).next(true), SenderStep::Done);
    let mut run = SenderRun::new(2);
    run.request_sent();
    run.line_failed();
    assert_eq!(run.next(false), SenderStep::Failed);
    let mut run = SenderRun::new(1);
    run.request_sent();
    run.bytes_came(&Frame::Error { code: 1 }.to_bytes());
    assert_eq!(run.next(false), SenderStep::Show(0));
    assert!(run.response(0).is_none());
}

#[test]
fn other_frames_count_and_are_shown_at_once() {
    let mut collector = ResponseCollector::new(2);
    let stray = Frame::Result { seq: 2, dims: MatrixDims { rows: 0, cols: 0 }, data: vec![] };
    assert!(matches!(collector.accept(stray), Received::Repeated { number: 2 }));
    assert!(matches!(
        collector.accept(Frame::Error { code: 1 }),
        Received::Shown(Frame::Error { code: 1 })
    ));
    let mut reader = FrameReader::new();
    let mut bytes = Frame::Error { code: 3 }.to_bytes();
    bytes[4] ^= 1;
    reader.feed_data(&bytes);
    let reports = collector.collect(&mut reader);
    assert!(matches!(reports[0], Received::Fault(FrameError::CrcMismatch { .. })));
    assert!(!collector.complete());
    assert_eq!(collector.total(), 2);
    assert!(collector.response(0).is_none());
    collector.accept(Frame::Error { code: 1 });
    assert!(collector.complete());
    reader.feed_data(&Frame::Error { code: 5 }.to_bytes());
    assert!(collector.collect(&mut reader).is_empty());
}

#[test]
fn the_generator_is_a_fixed_sequence() {
    let mut rng = Lcg::new(0);
    assert_eq!(rng.next_u32(), 1013904223);
    assert_eq!(rng.next_u32(), 1196435762);
    let mut rng = Lcg::new(0);
    let first = f32::from_bits(rng.next_f32());
    assert_eq!(first, (1013904223u32 & 0x007F_FFFF) as f32 / 8388608.0);
    let mut rng = Lcg::new(0xDEAD_BEEF);
    let mut plain = Lcg::new(0xDEAD_BEEF);
    for _ in 0..1000 {
        let x = f32::from_bits(rng.next_f32());
        let y = (plain.next_u32() & 0x007F_FFFF) as f32 / 8388608.0;
        assert_eq!(x.to_bits(), y.to_bits());
        assert!((0.0..1.0).contains(&x));
    }
}

#[test]
fn fractions_have_the_patterns_of_floats() {
    let mut state: u32 = 0;
    for _ in 0..200000 {
        let mut rng = Lcg::new(state);
        let bits = rng.next_f32();
        let k = rng.state & 0x007F_FFFF;
        assert_eq!(bits, (k as f32 / 8388608.0).to_bits());
        state = state.wrapping_add(21474);
    }
}

#[test]
fn the_smallest_fractions_are_exact() {
    let mut zero = Lcg::new(634785765);
    assert_eq!(zero.next_f32(), 0);
    assert_eq!(zero.state, 0);
    let mut one = Lcg::new(615934122);
    assert_eq!(f32::from_bits(one.next_f32()), 1.0 / 8388608.0);
    assert_eq!(one.state, 1);
}

#[test]
fn requests_are_built_from_their_seed() {
    let frame = build_request(1, 2, 1, 6, 41);
    let mut rng = Lcg::new(41u32.wrapping_add(0xDEAD_BEEF));
    match frame {
        Frame::Request { seq, dims_a, dims_b, data } => {
            assert_eq!(seq, 6);
            assert_eq!(dims_a, MatrixDims { rows: 1, cols: 2 });
            assert_eq!(dims_b, MatrixDims { rows: 2, cols: 1 });
            assert_eq!(data.len(), 4);
            for word in data {
                assert_eq!(word, rng.next_f32());
            }
        }
        other => panic!("Expected Request frame, got {:?}", other),
    }
    match nth_request(1, 1, 1, 300) {
        Frame::Request { seq, .. } => assert_eq!(seq, 44),
        other => panic!("Expected Request frame, got {:?}", other),
    }
}

#[test]
fn frames_are_summed_up_in_words() {
    let dims_a = MatrixDims { rows: 2, cols: 3 };
    let dims_b = MatrixDims { rows: 3, cols: 12 };
    let request = Frame::Request { seq: 200, dims_a, dims_b, data: vec![0; 42] };
    assert_eq!(frame_summary(&request), "Request seq=200 A=2x3 B=3x12 (42 floats)");
    let result = Frame::Result { seq: 0, dims: dims_a, data: vec![0; 6] };
    assert_eq!(frame_summary(&result), "Result seq=0 2x3 (6 floats)");
    assert_eq!(frame_summary(&Frame::Error { code: 0x0B }), "Error code 0x0b");
}

#[test]
fn responses_are_shown_row_by_row() {
    let dims = MatrixDims { rows: 2, cols: 3 };
    let result = Frame::Result { seq: 0, dims, data: vec![1, 2, 3, 4, 5, 6] };
    match print_response(&result) {
        Shown::Table { dims: d, lines } => {
            assert_eq!(d, dims);
            assert_eq!(lines, vec![vec![1, 2, 3], vec![4, 5, 6]]);
        }
        other => panic!("Expected Table, got {:?}", other),
    }
    assert!(matches!(print_response(&Frame::Error { code: 4 }), Shown::ErrorCode(4)));
    let request = build_request(1, 1, 1, 0, 0);
    assert!(matches!(print_response(&request), Shown::Unexpected));
}
