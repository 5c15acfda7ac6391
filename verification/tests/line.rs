//! The serial line, the command line and the errors.

use uart_matmul::cli::{flag_number, parse_args, Parsed, RunMode};
use uart_matmul::error::{AppError, ComputeError, FrameError};
use uart_matmul::protocol::Frame;
use uart_matmul::serial::{
    read_fd, write_all_fd, write_frame, IoStep, ReadFuture, WriteAllFuture,
};
use uart_matmul::signal::register_signal;
use uart_matmul::sys::{
    configure_serial, raw_read, raw_write, IoOutcome, Termios, CLOCAL, CREAD, CS8, CSTOPB, PARENB,
    VMIN, VTIME,
};
use uart_matmul::text::{push_decimal, push_hex_byte};
use uart_matmul::trace::write_raw;

fn args(words: &[&str]) -> Vec<String> {
    let mut all = vec!["uart-matmul".to_string()];
    all.extend(words.iter().map(|w| w.to_string()));
    all
}

fn config(words: &[&str]) -> (String, u32, RunMode) {
    match parse_args(&args(words)) {
        Parsed::Run(c) => (c.port, c.baud, c.mode),
        Parsed::Help => panic!("Expected a configuration"),
    }
}

#[test]
fn the_defaults_hold_where_nothing_is_said() {
    let (port, baud, mode) = config(&[]);
    assert_eq!((port.as_str(), baud, mode), ("/dev/ttyS0", 115200, RunMode::Receiver));
    let (_, _, mode) = config(&["--mode", "sender"]);
    assert_eq!(mode, RunMode::Sender { rows_a: 2, cols_a: 3, cols_b: 2, count: 1 });
    assert!(matches!(parse_args(&Vec::new()), Parsed::Run(_)));
}

#[test]
fn every_flag_is_taken() {
    let (port, baud, mode) = config(&[
        "-p", "/dev/ttyUSB0", "-b", "9600", "-m", "sender", "--rows-a", "4", "--cols-a", "5",
        "--cols-b", "+6", "-c", "10",
    ]);
    assert_eq!((port.as_str(), baud), ("/dev/ttyUSB0", 9600));
    assert_eq!(mode, RunMode::Sender { rows_a: 4, cols_a: 5, cols_b: 6, count: 10 });
    let (port, baud, mode) = config(&["--baud", "4294967295", "--port", "x", "--count", "007"]);
    assert_eq!((port.as_str(), baud, mode), ("x", u32::MAX, RunMode::Receiver));
}

#[test]
fn bad_numbers_count_as_the_default() {
    let (_, baud, mode) = config(&[
        "--baud", "fast", "--mode", "sender", "--rows-a", "256", "--cols-a", "-1", "--cols-b", "",
        "--count", "+",
    ]);
    assert_eq!(baud, 115200);
    assert_eq!(mode, RunMode::Sender { rows_a: 2, cols_a: 3, cols_b: 2, count: 1 });
    let (_, baud, _) = config(&["-b", "4294967296"]);
    assert_eq!(baud, 115200);
    let (_, baud, _) = config(&["-b", "99999999999999999999999"]);
    assert_eq!(baud, 115200);
}

#[test]
fn unknown_words_and_missing_values_are_passed_over() {
    let (port, _, mode) = config(&["what", "--port", "--mode", "sender", "--count"]);
    assert_eq!((port.as_str(), mode), ("--mode", RunMode::Receiver));
    assert!(matches!(parse_args(&args(&["x", "--help"])), Parsed::Help));
    assert!(matches!(parse_args(&args(&["-h", "--port"])), Parsed::Help));
    let (port, _, _) = config(&["--port", "-h"]);
    assert_eq!(port, "-h");
}

#[test]
fn the_line_is_set_to_raw_bytes() {
    let mut before = Termios::zeroed();
    before.c_iflag = u32::MAX;
    before.c_oflag = u32::MAX;
    before.c_lflag = u32::MAX;
    before.c_cflag = u32::MAX;
    before.c_cc = [9; 32];
    before.c_line = 3;
    let after = configure_serial(&before, 115200, 250);
    assert_eq!(after.c_iflag, !0o12753);
    assert_eq!(after.c_oflag, !1);
    assert_eq!(after.c_lflag, !0o105173);
    assert_eq!(after.c_cflag & (CS8 | CSTOPB | PARENB), CS8);
    assert_eq!(after.c_cflag & (CREAD | CLOCAL), CREAD | CLOCAL);
    assert_eq!((after.c_ispeed, after.c_ospeed, after.c_line), (115200, 115200, 3));
    assert_eq!((after.c_cc[VMIN], after.c_cc[VTIME], after.c_cc[0]), (0, 3, 9));
    assert_eq!(configure_serial(&Termios::zeroed(), 0, 0).c_cc[VTIME], 0);
    assert_eq!(configure_serial(&Termios::zeroed(), 0, 500).c_cc[VTIME], 5);
    assert_eq!(configure_serial(&Termios::zeroed(), 0, 1_000_000).c_cc[VTIME], 255);
}

#[test]
fn return_values_mean_bytes_waiting_or_failure() {
    assert_eq!(raw_read(0, true), IoOutcome::Bytes(0));
    assert_eq!(raw_read(12, false), IoOutcome::Bytes(12));
    assert_eq!(raw_read(-1, true), IoOutcome::WouldBlock);
    assert_eq!(raw_write(-1, false), IoOutcome::Failed);
    assert_eq!(write_raw(10, 4), 6);
    assert_eq!(write_raw(10, 0), 0);
    assert_eq!(write_raw(10, -1), 0);
}

#[test]
fn a_read_takes_all_there_is() {
    let mut read = ReadFuture { len: 10, total: 3 };
    assert_eq!(read.begin(true), IoStep::Terminated);
    assert_eq!(read.begin(false), IoStep::Try(0));
    assert_eq!(read.poll(IoOutcome::WouldBlock), IoStep::Wait);
    assert_eq!(read.poll(IoOutcome::Bytes(0)), IoStep::Wait);
    assert_eq!(read.poll(IoOutcome::Bytes(4)), IoStep::Try(4));
    assert_eq!(read.poll(IoOutcome::WouldBlock), IoStep::Ready(4));
    assert_eq!(read.poll(IoOutcome::Bytes(0)), IoStep::Ready(4));
    assert_eq!(read.poll(IoOutcome::Bytes(6)), IoStep::Ready(10));
    assert_eq!(read.poll(IoOutcome::Failed), IoStep::Failed);
}

#[test]
fn a_write_takes_as_many_polls_as_it_needs() {
    let mut write = WriteAllFuture::new(5);
    assert_eq!(write.begin(), IoStep::Try(0));
    assert_eq!(write.poll(IoOutcome::Bytes(2)), IoStep::Try(2));
    assert_eq!(write.poll(IoOutcome::WouldBlock), IoStep::Wait);
    assert_eq!(write.begin(), IoStep::Try(2));
    assert_eq!(write.poll(IoOutcome::Bytes(3)), IoStep::Ready(5));
    assert_eq!(write.poll(IoOutcome::Failed), IoStep::Failed);
    assert_eq!(WriteAllFuture::new(0).begin(), IoStep::Ready(0));
    let mut shared = write_all_fd(4, 1);
    assert_eq!(shared.begin(), IoStep::Try(0));
    assert_eq!(shared.poll(IoOutcome::Bytes(1)), IoStep::Ready(1));
    assert_eq!(shared.fd, 4);
    assert_eq!(read_fd(4).poll(IoOutcome::Bytes(0)), IoStep::Ready(0));
    assert_eq!(read_fd(4).poll(IoOutcome::WouldBlock), IoStep::Wait);
    assert_eq!(read_fd(4).poll(IoOutcome::Failed), IoStep::Failed);
}

#[test]
fn a_blocking_frame_write_fails_on_nothing() {
    let frame = Frame::Error { code: 1 };
    let mut write = write_frame(&frame);
    assert_eq!(write.bytes, frame.to_bytes());
    assert_eq!(write.step(IoOutcome::Bytes(2)), IoStep::Try(2));
    assert_eq!(write.step(IoOutcome::Bytes(0)), IoStep::WroteNothing);
    assert_eq!(write.step(IoOutcome::WouldBlock), IoStep::Failed);
    assert_eq!(write.step(IoOutcome::Bytes(3)), IoStep::Ready(5));
}

#[test]
fn errors_have_texts_codes_and_sources() {
    let io = || std::io::Error::new(std::io::ErrorKind::Other, "unplugged");
    assert_eq!(FrameError::Timeout.message(), "read timeout, incomplete frame");
    let crc = FrameError::CrcMismatch { expected: 0x0A, actual: 0xFF };
    assert_eq!(crc.message(), "CRC8 mismatch: expected 0x0a, got 0xff");
    assert_eq!(FrameError::InvalidFrame.message(), "invalid frame format");
    let big = FrameError::Oversize(20000);
    assert_eq!(big.message(), "frame too large: 20000 bytes exceeds MAX_PAYLOAD_LEN");
    let wrapped = FrameError::from(io());
    assert_eq!(wrapped.message(), "I/O error: unplugged");
    assert!(wrapped.source().is_some());
    assert!(big.source().is_none());
    let codes = [
        (ComputeError::DimensionMismatch, 1, "dimension mismatch: COLS_A != ROWS_B"),
        (ComputeError::CrcError, 2, "CRC verification failed"),
        (ComputeError::InvalidFrame, 3, "malformed frame"),
        (ComputeError::DataOverflow, 4, "data overflow"),
    ];
    for (error, code, text) in codes {
        assert_eq!(error.code(), code);
        assert_eq!(error.message(), text);
    }
    let serial = AppError::Serial(io());
    assert_eq!(serial.message(), "serial port error: unplugged");
    assert!(serial.source().is_some());
    assert_eq!(serial.describe("gone"), "serial port error: gone");
    let signal = AppError::Signal("SIGINT".to_string());
    assert_eq!(signal.message(), "signal registration failed: SIGINT");
    assert_eq!(signal.describe("gone"), "signal registration failed: SIGINT");
}

#[test]
fn measuring_programs_take_their_numbers_from_flags() {
    let line = args(&["uintr-sender", "-c", "100000"]);
    assert_eq!(flag_number(&line, "--count", "-c", 100), 100000);
    assert_eq!(flag_number(&line, "--interval-ms", "-i", 7), 7);
    let line = args(&["ipc-sender", "--count", "5", "-c", "six", "-c"]);
    assert_eq!(flag_number(&line, "--count", "-c", 1000), 1000);
    let line = args(&["ipc-sender", "-c", "5", "-c", "6", "-s", "64"]);
    assert_eq!(flag_number(&line, "--count", "-c", 1000), 6);
    assert_eq!(flag_number(&line, "--size", "-s", 4096), 64);
    assert_eq!(flag_number(&Vec::new(), "--size", "-s", 4096), 4096);
}

#[test]
fn signals_are_registered_or_named() {
    assert!(register_signal("SIGINT", 0).is_ok());
    let e = register_signal("SIGTERM", usize::MAX).unwrap_err();
    assert_eq!(e.message(), "signal registration failed: SIGTERM");
    assert!(e.source().is_none());
}

#[test]
fn numbers_are_spelled_out() {
    let mut out = String::from("n=");
    push_decimal(&mut out, 0);
    push_decimal(&mut out, u64::MAX);
    push_hex_byte(&mut out, 0xC5);
    assert_eq!(out, "n=0184467440737095516150xc5");
}
