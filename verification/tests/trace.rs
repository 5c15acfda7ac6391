//! Numbers as ASCII.

use uart_matmul::trace::{fmt_f64, fmt_u32, fmt_u64, fmt_usize, put, F64Parts};

/// A float as its rounded magnitude, split at the point.
fn parts_of(x: f64) -> F64Parts {
    if x.is_nan() {
        return F64Parts::Nan;
    }
    if x.is_infinite() {
        return F64Parts::Infinite;
    }
    let negative = x < 0.0;
    let val = (if negative { -x } else { x }) + 0.0000005;
    let int_part = val as u64;
    let frac_part = ((val - int_part as f64) * 1_000_000.0) as u64;
    F64Parts::Finite { negative, int_part, frac_part }
}

#[test]
fn fmt_u32_zero() {
    let mut buf = [0u8; 16];
    assert_eq!(fmt_u32(0, &mut buf), 1);
    assert_eq!(&buf[..1], b"0");
}

#[test]
fn fmt_u32_12345() {
    let mut buf = [0u8; 16];
    let n = fmt_u32(12345, &mut buf);
    assert_eq!(&buf[..n], b"12345");
}

#[test]
fn fmt_usize_big() {
    let mut buf = [0u8; 32];
    let n = fmt_usize(390627, &mut buf);
    assert_eq!(&buf[..n], b"390627");
}

#[test]
fn fmt_f64_basic() {
    let mut buf = [0u8; 32];
    let n = fmt_f64(parts_of(123.456789123), &mut buf);
    assert_eq!(&buf[..n], b"123.456789");
}

#[test]
fn fmt_f64_pads_signs_and_names() {
    let mut buf = [0u8; 32];
    let n = fmt_f64(parts_of(-2.000042), &mut buf);
    assert_eq!(&buf[..n], b"-2.000042");
    let n = fmt_f64(parts_of(0.0), &mut buf);
    assert_eq!(&buf[..n], b"0.000000");
    let n = fmt_f64(parts_of(f64::NAN), &mut buf);
    assert_eq!(&buf[..n], b"nan");
    let n = fmt_f64(parts_of(f64::NEG_INFINITY), &mut buf);
    assert_eq!(&buf[..n], b"inf");
    let long = F64Parts::Finite { negative: false, int_part: 7, frac_part: 1_234_567 };
    let n = fmt_f64(long, &mut buf);
    assert_eq!(&buf[..n], b"7.123456");
}

#[test]
fn fmt_f64_stops_at_the_end_of_the_buffer() {
    let mut buf = [b'#'; 5];
    let n = fmt_f64(parts_of(-12.5), &mut buf);
    assert_eq!(n, 5);
    assert_eq!(&buf, b"-12.5");
    let mut tiny = [b'#'; 2];
    assert_eq!(fmt_f64(F64Parts::Nan, &mut tiny), 2);
    assert_eq!(&tiny, b"na");
}

#[test]
fn short_buffers_keep_the_last_digits() {
    let mut buf = [b'#'; 3];
    assert_eq!(fmt_u64(12345, &mut buf), 3);
    assert_eq!(&buf, b"345");
    let mut none: [u8; 0] = [];
    assert_eq!(fmt_u32(0, &mut none), 0);
    assert_eq!(fmt_u32(7, &mut none), 0);
}

#[test]
fn put_cuts_at_the_end() {
    let mut buf = [b'.'; 6];
    let off = put(&mut buf, 0, b"abcd");
    assert_eq!(off, 4);
    assert_eq!(put(&mut buf, off, b"efgh"), 6);
    assert_eq!(&buf, b"abcdef");
}

#[test]
fn fmt_u64_takes_the_largest() {
    let mut buf = [0u8; 32];
    let n = fmt_u64(u64::MAX, &mut buf);
    assert_eq!(&buf[..n], b"18446744073709551615");
}
