//! Error types of the service and the texts that describe them.

use vstd::prelude::*;
use vstd::string::*;

use crate::text::{decimal, hex_byte, push_decimal, push_hex_byte};

verus! {

/// `std::io::Error`, carried through without looking inside.
#[verifier::external_type_specification]
#[verifier::external_body]
pub struct ExIoError(std::io::Error);

/// `std::io::Error`'s `Display` text.
///
/// The text comes from the operating system and its locale, so nothing is stated of it.
#[verifier::external_body]
fn io_error_text(e: &std::io::Error) -> (r: String) {
    e.to_string()
}

/// What can go wrong while a frame is read.
#[derive(Debug)]
pub enum FrameError {
    Io(std::io::Error),
    Timeout,
    CrcMismatch { expected: u8, actual: u8 },
    InvalidFrame,
    Oversize(usize),
}

/// What can go wrong while a request is answered.
#[derive(Debug, Clone, Copy, PartialEq, Eq, Structural)]
pub enum ComputeError {
    DimensionMismatch,
    CrcError,
    InvalidFrame,
    DataOverflow,
}

/// What ends the program.
#[derive(Debug)]
pub enum AppError {
    Serial(std::io::Error),
    Signal(String),
}

/// The description of a frame error, where it does not hold the text of an I/O error.
pub open spec fn frame_error_text(e: FrameError) -> Seq<char> {
    match e {
        FrameError::Io(_) => "I/O error: "@,
        FrameError::Timeout => "read timeout, incomplete frame"@,
        FrameError::CrcMismatch { expected, actual } => "CRC8 mismatch: expected "@ + hex_byte(
            expected,
        ) + ", got "@ + hex_byte(actual),
        FrameError::InvalidFrame => "invalid frame format"@,
        FrameError::Oversize(n) => "frame too large: "@ + decimal(n as nat)
            + " bytes exceeds MAX_PAYLOAD_LEN"@,
    }
}

/// The description of a compute error.
pub open spec fn compute_error_text(e: ComputeError) -> Seq<char> {
    match e {
        ComputeError::DimensionMismatch => "dimension mismatch: COLS_A != ROWS_B"@,
        ComputeError::CrcError => "CRC verification failed"@,
        ComputeError::InvalidFrame => "malformed frame"@,
        ComputeError::DataOverflow => "data overflow"@,
    }
}

/// The description of what ends the program, with `io_text` for the text of an I/O error.
pub open spec fn app_error_text(e: AppError, io_text: Seq<char>) -> Seq<char> {
    match e {
        AppError::Serial(_) => "serial port error: "@ + io_text,
        AppError::Signal(s) => "signal registration failed: "@ + s@,
    }
}

/// The code of a compute error on the wire.
pub open spec fn compute_error_code(e: ComputeError) -> u8 {
    match e {
        ComputeError::DimensionMismatch => 0x01,
        ComputeError::CrcError => 0x02,
        ComputeError::InvalidFrame => 0x03,
        ComputeError::DataOverflow => 0x04,
    }
}

impl FrameError {
    /// The description of this error, with `io_text` for the text of an I/O error.
    pub fn describe(&self, io_text: &str) -> (r: String)
        ensures
            r@ == frame_error_text(*self) + (if self is Io {
                io_text@
            } else {
                Seq::<char>::empty()
            }),
    {
        let mut out = String::new();
        match self {
            FrameError::Io(_) => {
                out.append("I/O error: ");
                out.append(io_text);
            },
            FrameError::Timeout => {
                out.append("read timeout, incomplete frame");
            },
            FrameError::CrcMismatch { expected, actual } => {
                out.append("CRC8 mismatch: expected ");
                push_hex_byte(&mut out, *expected);
                out.append(", got ");
                push_hex_byte(&mut out, *actual);
            },
            FrameError::InvalidFrame => {
                out.append("invalid frame format");
            },
            FrameError::Oversize(n) => {
                out.append("frame too large: ");
                push_decimal(&mut out, *n as u64);
                out.append(" bytes exceeds MAX_PAYLOAD_LEN");
            },
        }
        assert(out@ =~= frame_error_text(*self) + (if self is Io {
            io_text@
        } else {
            Seq::<char>::empty()
        }));
        out
    }

    /// The description of this error. The text of an I/O error is the operating system's, and
    /// nothing is stated of it.
    pub fn message(&self) -> (r: String)
        ensures
            !(self is Io) ==> r@ == frame_error_text(*self),
            self is Io ==> exists|io_text: Seq<char>|
                r@ == #[trigger] (frame_error_text(*self) + io_text),
    {
        let r = match self {
            FrameError::Io(e) => {
                let t = io_error_text(e);
                self.describe(t.as_str())
            },
            _ => self.describe(""),
        };
        proof {
            reveal_strlit("");
            assert(frame_error_text(*self) + Seq::<char>::empty() =~= frame_error_text(*self));
        }
        r
    }

    /// The error that this one wraps.
    pub fn source(&self) -> (r: Option<&std::io::Error>)
        ensures
            r == (match *self {
                FrameError::Io(e) => Some(&e),
                _ => None,
            }),
    {
        match self {
            FrameError::Io(e) => Some(e),
            _ => None,
        }
    }
}

impl From<std::io::Error> for FrameError {
    fn from(e: std::io::Error) -> (r: Self) {
        FrameError::Io(e)
    }
}

impl vstd::std_specs::convert::FromSpecImpl<std::io::Error> for FrameError {
    open spec fn obeys_from_spec() -> bool {
        true
    }

    open spec fn from_spec(e: std::io::Error) -> Self {
        FrameError::Io(e)
    }
}

impl ComputeError {
    /// The description of this error.
    pub fn message(&self) -> (r: String)
        ensures
            r@ == compute_error_text(*self),
    {
        match self {
            ComputeError::DimensionMismatch => String::from_str(
                "dimension mismatch: COLS_A != ROWS_B",
            ),
            ComputeError::CrcError => String::from_str("CRC verification failed"),
            ComputeError::InvalidFrame => String::from_str("malformed frame"),
            ComputeError::DataOverflow => String::from_str("data overflow"),
        }
    }

    /// The code of this error on the wire.
    pub fn code(&self) -> (r: u8)
        ensures
            r == compute_error_code(*self),
    {
        match self {
            ComputeError::DimensionMismatch => 0x01,
            ComputeError::CrcError => 0x02,
            ComputeError::InvalidFrame => 0x03,
            ComputeError::DataOverflow => 0x04,
        }
    }
}

/// A code tells which error it stands for.
pub proof fn lemma_compute_error_codes_differ(a: ComputeError, b: ComputeError)
    requires
        compute_error_code(a) == compute_error_code(b),
    ensures
        a == b,
{
}

impl AppError {
    /// The description of this error, with `io_text` for the text of an I/O error.
    pub fn describe(&self, io_text: &str) -> (r: String)
        ensures
            r@ == app_error_text(*self, io_text@),
    {
        match self {
            AppError::Serial(_) => String::from_str("serial port error: ").concat(io_text),
            AppError::Signal(s) => String::from_str("signal registration failed: ").concat(
                s.as_str(),
            ),
        }
    }

    /// The description of this error. The text of an I/O error is the operating system's, and
    /// nothing is stated of it.
    pub fn message(&self) -> (r: String)
        ensures
            exists|io_text: Seq<char>| r@ == #[trigger] app_error_text(*self, io_text),
    {
        match self {
            AppError::Serial(e) => {
                let t = io_error_text(e);
                self.describe(t.as_str())
            },
            AppError::Signal(_) => self.describe(""),
        }
    }

    /// The error that this one wraps.
    pub fn source(&self) -> (r: Option<&std::io::Error>)
        ensures
            r == (match *self {
                AppError::Serial(e) => Some(&e),
                _ => None,
            }),
    {
        match self {
            AppError::Serial(e) => Some(e),
            _ => None,
        }
    }
}

/// The description of a damaged frame holds both checksums in base sixteen, each at its place;
/// the words around them do not depend on them.
pub proof fn lemma_damage_is_described(expected: u8, actual: u8, e: u8, a: u8)
    ensures
        ({
            let s = frame_error_text(FrameError::CrcMismatch { expected, actual });
            let t = frame_error_text(FrameError::CrcMismatch { expected: e, actual: a });
            &&& s.len() == 38
            &&& s.subrange(24, 28) == hex_byte(expected)
            &&& s.subrange(34, 38) == hex_byte(actual)
            &&& s.take(24) == t.take(24)
            &&& s.subrange(28, 34) == t.subrange(28, 34)
        }),
{
    reveal_strlit("CRC8 mismatch: expected ");
    reveal_strlit(", got ");
    let s = frame_error_text(FrameError::CrcMismatch { expected, actual });
    let t = frame_error_text(FrameError::CrcMismatch { expected: e, actual: a });
    assert(s.subrange(24, 28) =~= hex_byte(expected));
    assert(s.subrange(34, 38) =~= hex_byte(actual));
    assert(s.take(24) =~= t.take(24));
    assert(s.subrange(28, 34) =~= t.subrange(28, 34));
}

/// The description of a frame that is too long holds its length in base ten; the words around it
/// do not depend on it.
pub proof fn lemma_length_is_described(n: usize, m: usize)
    ensures
        ({
            let s = frame_error_text(FrameError::Oversize(n));
            let t = frame_error_text(FrameError::Oversize(m));
            let d = decimal(n as nat).len() as int;
            let e = decimal(m as nat).len() as int;
            &&& s.len() > 17 + d
            &&& s.subrange(17, 17 + d) == decimal(n as nat)
            &&& s.take(17) == t.take(17)
            &&& s.skip(17 + d) == t.skip(17 + e)
        }),
{
    reveal_strlit("frame too large: ");
    reveal_strlit(" bytes exceeds MAX_PAYLOAD_LEN");
    let s = frame_error_text(FrameError::Oversize(n));
    let t = frame_error_text(FrameError::Oversize(m));
    let d = decimal(n as nat).len() as int;
    let e = decimal(m as nat).len() as int;
    assert(s.subrange(17, 17 + d) =~= decimal(n as nat));
    assert(s.take(17) =~= t.take(17));
    assert(s.skip(17 + d) =~= t.skip(17 + e));
}

/// The description of what ends the program ends with the system's text or the signal's name,
/// behind words that depend on neither.
pub proof fn lemma_end_is_described(a: AppError, b: AppError, x: Seq<char>, y: Seq<char>)
    requires
        a is Serial <==> b is Serial,
    ensures
        ({
            let s = app_error_text(a, x);
            let t = app_error_text(b, y);
            let told = match a {
                AppError::Serial(_) => x,
                AppError::Signal(name) => name@,
            };
            let head = s.len() - told.len();
            &&& 0 < head
            &&& s.skip(head) == told
            &&& t.len() >= head
            &&& s.take(head) == t.take(head)
        }),
{
    reveal_strlit("serial port error: ");
    reveal_strlit("signal registration failed: ");
    let s = app_error_text(a, x);
    let t = app_error_text(b, y);
    let told = match a {
        AppError::Serial(_) => x,
        AppError::Signal(name) => name@,
    };
    let head = s.len() - told.len();
    assert(s.skip(head) =~= told);
    assert(s.take(head) =~= t.take(head));
}

/// The codes on the wire: 1 for shapes, 2 for the checksum, 3 for the format, 4 for too much.
pub proof fn lemma_codes_are_the_published_ones(e: ComputeError)
    ensures
        compute_error_code(e) == 1 <==> e is DimensionMismatch,
        compute_error_code(e) == 2 <==> e is CrcError,
        compute_error_code(e) == 3 <==> e is InvalidFrame,
        compute_error_code(e) == 4 <==> e is DataOverflow,
{
}

} // verus!
