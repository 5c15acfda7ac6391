//! The serial line's settings, and what the results of reads and writes mean.

use vstd::prelude::*;

verus! {

pub const O_RDWR: i32 = 0o2;

pub const O_NOCTTY: i32 = 0o400;

/// Settings take effect at once.
pub const TCSANOW: i32 = 0;

/// Eight data bits; also the mask of the data bits.
pub const CS8: u32 = 0o60;

/// Two stop bits.
pub const CSTOPB: u32 = 0o100;

/// Characters are received.
pub const CREAD: u32 = 0o200;

/// A parity bit.
pub const PARENB: u32 = 0o400;

/// Modem control lines are ignored.
pub const CLOCAL: u32 = 0o4000;

/// `IGNBRK`, `BRKINT`, `PARMRK`, `ISTRIP`, `INLCR`, `IGNCR`, `ICRNL`, `IXON` and `IXOFF`: input
/// is changed or held up on its way.
pub const INPUT_PROCESSING: u32 = 0o12753;

/// `OPOST`: output is changed on its way.
pub const OUTPUT_PROCESSING: u32 = 0o1;

/// `ECHO`, `ECHOE`, `ECHOK`, `ECHONL`, `ECHOCTL`, `ECHOKE`, `ICANON`, `ISIG` and `IEXTEN`: input
/// is echoed, edited or taken for commands.
pub const LINE_EDITING: u32 = 0o105173;

/// The place of the least number of bytes that a read waits for.
pub const VMIN: usize = 6;

/// The place of the time that a read waits, in tenths of a second.
pub const VTIME: usize = 5;

pub const B115200: u32 = 0x1002;

pub const SIGINT: i32 = 2;

pub const SIGTERM: i32 = 15;

/// The settings of a terminal line.
#[derive(Clone, Copy)]
pub struct Termios {
    pub c_iflag: u32,
    pub c_oflag: u32,
    pub c_cflag: u32,
    pub c_lflag: u32,
    pub c_line: u8,
    pub c_cc: [u8; 32],
    pub c_ispeed: u32,
    pub c_ospeed: u32,
}

impl Termios {
    /// Settings that are all zero.
    pub fn zeroed() -> (r: Self)
        ensures
            r.c_iflag == 0 && r.c_oflag == 0 && r.c_cflag == 0 && r.c_lflag == 0,
            r.c_line == 0,
            r.c_ispeed == 0 && r.c_ospeed == 0,
            forall|i: int| 0 <= i < 32 ==> r.c_cc@[i] == 0,
    {
        Termios {
            c_iflag: 0,
            c_oflag: 0,
            c_cflag: 0,
            c_lflag: 0,
            c_line: 0,
            c_cc: [0u8;32],
            c_ispeed: 0,
            c_ospeed: 0,
        }
    }
}

/// A read's patience in tenths of a second: `timeout_ms` rounded up, as far as it fits a byte.
pub open spec fn tenths(timeout_ms: u64) -> u8 {
    let t = (timeout_ms + 99) / 100;
    if t < 255 {
        t as u8
    } else {
        255
    }
}

/// The settings for raw bytes: eight data bits, no parity, one stop bit, no flow control, at
/// `baud_rate`. A read returns what there is, and nothing after `timeout_ms` without bytes.
pub fn configure_serial(current: &Termios, baud_rate: u32, timeout_ms: u64) -> (r: Termios)
    requires
        timeout_ms <= u64::MAX - 99,
    ensures
        r.c_iflag == current.c_iflag & !INPUT_PROCESSING,
        r.c_oflag == current.c_oflag & !OUTPUT_PROCESSING,
        r.c_lflag == current.c_lflag & !LINE_EDITING,
        r.c_cflag == (current.c_cflag & !(CS8 | CSTOPB | PARENB)) | (CS8 | CREAD | CLOCAL),
        r.c_line == current.c_line,
        r.c_ispeed == baud_rate && r.c_ospeed == baud_rate,
        r.c_cc@ == current.c_cc@.update(VMIN as int, 0).update(VTIME as int, tenths(timeout_ms)),
        r.c_cc@[6] == 0,
        r.c_cc@[5] == tenths(timeout_ms),
{
    let mut tios = *current;
    tios.c_iflag = tios.c_iflag & !INPUT_PROCESSING;
    tios.c_oflag = tios.c_oflag & !OUTPUT_PROCESSING;
    tios.c_lflag = tios.c_lflag & !LINE_EDITING;
    tios.c_cflag = (tios.c_cflag & !(CS8 | CSTOPB | PARENB)) | (CS8 | CREAD | CLOCAL);
    tios.c_ispeed = baud_rate;
    tios.c_ospeed = baud_rate;
    let t: u64 = (timeout_ms + 99) / 100;
    let vtime: u8 = if t < 255 {
        t as u8
    } else {
        255
    };
    tios.c_cc[VMIN] = 0;
    tios.c_cc[VTIME] = vtime;
    tios
}

/// Whatever the line was set to before, the new settings are raw: eight data bits, one stop bit
/// and no parity, nothing changed, echoed or held up on its way.
pub proof fn lemma_line_is_raw(iflag: u32, oflag: u32, cflag: u32, lflag: u32)
    ensures
        (iflag & !INPUT_PROCESSING) & INPUT_PROCESSING == 0,
        (oflag & !OUTPUT_PROCESSING) & OUTPUT_PROCESSING == 0,
        (lflag & !LINE_EDITING) & LINE_EDITING == 0,
        ({
            let c = (cflag & !(CS8 | CSTOPB | PARENB)) | (CS8 | CREAD | CLOCAL);
            c & CS8 == CS8 && c & CSTOPB == 0 && c & PARENB == 0 && c & CREAD == CREAD && c & CLOCAL
                == CLOCAL
        }),
{
    assert((iflag & !0o12753u32) & 0o12753u32 == 0) by (bit_vector);
    assert((oflag & !0o1u32) & 0o1u32 == 0) by (bit_vector);
    assert((lflag & !0o105173u32) & 0o105173u32 == 0) by (bit_vector);
    assert({
        let c = (cflag & !(0o60u32 | 0o100u32 | 0o400u32)) | (0o60u32 | 0o200u32 | 0o4000u32);
        c & 0o60u32 == 0o60u32 && c & 0o100u32 == 0 && c & 0o400u32 == 0 && c & 0o200u32
            == 0o200u32 && c & 0o4000u32 == 0o4000u32
    }) by (bit_vector);
}

/// What became of a read or a write that does not block.
#[derive(Debug, Clone, Copy, PartialEq, Eq, Structural)]
pub enum IoOutcome {
    /// This many bytes were moved.
    Bytes(usize),
    /// Nothing could be moved yet.
    WouldBlock,
    /// It failed.
    Failed,
}

/// What the return value of a read or a write means; `would_block` says whether the system's
/// last error is that the call would block.
pub open spec fn io_outcome(n: isize, would_block: bool) -> IoOutcome {
    if n >= 0 {
        IoOutcome::Bytes(n as usize)
    } else if would_block {
        IoOutcome::WouldBlock
    } else {
        IoOutcome::Failed
    }
}

/// What the return value of a read means.
pub fn raw_read(n: isize, would_block: bool) -> (r: IoOutcome)
    ensures
        r == io_outcome(n, would_block),
{
    if n < 0 {
        if would_block {
            IoOutcome::WouldBlock
        } else {
            IoOutcome::Failed
        }
    } else {
        IoOutcome::Bytes(n as usize)
    }
}

/// What the return value of a write means.
pub fn raw_write(n: isize, would_block: bool) -> (r: IoOutcome)
    ensures
        r == io_outcome(n, would_block),
{
    raw_read(n, would_block)
}

/// A read's patience is the least number of tenths of a second that covers the time it may take,
/// as far as 255 of them do.
pub proof fn lemma_patience_covers_timeout(timeout_ms: u64)
    requires
        timeout_ms <= u64::MAX - 99,
    ensures
        tenths(timeout_ms) < 255 ==> 100 * tenths(timeout_ms) >= timeout_ms,
        tenths(timeout_ms) > 0 ==> 100 * (tenths(timeout_ms) - 1) < timeout_ms,
        timeout_ms <= 25500 ==> 100 * tenths(timeout_ms) >= timeout_ms,
{
}

/// The new settings keep everything of the old ones that raw bytes do not touch, and clear or set
/// everything that they do: bit by bit, by the numbers that the system gives them.
pub proof fn lemma_settings_touch_nothing_else(iflag: u32, oflag: u32, cflag: u32, lflag: u32)
    ensures
        (iflag & !INPUT_PROCESSING) & !0o12753u32 == iflag & !0o12753u32,
        (iflag & !INPUT_PROCESSING) & 0o12753u32 == 0,
        (oflag & !OUTPUT_PROCESSING) & !0o1u32 == oflag & !0o1u32,
        (oflag & !OUTPUT_PROCESSING) & 0o1u32 == 0,
        (lflag & !LINE_EDITING) & !0o105173u32 == lflag & !0o105173u32,
        (lflag & !LINE_EDITING) & 0o105173u32 == 0,
        ({
            let c = (cflag & !(CS8 | CSTOPB | PARENB)) | (CS8 | CREAD | CLOCAL);
            &&& c & 0o60u32 == 0o60u32
            &&& c & 0o500u32 == 0
            &&& c & 0o4200u32 == 0o4200u32
            &&& c & !0o4760u32 == cflag & !0o4760u32
        }),
{
    assert((iflag & !0o12753u32) & !0o12753u32 == iflag & !0o12753u32 && (iflag & !0o12753u32)
        & 0o12753u32 == 0) by (bit_vector);
    assert((oflag & !0o1u32) & !0o1u32 == oflag & !0o1u32 && (oflag & !0o1u32) & 0o1u32 == 0)
        by (bit_vector);
    assert((lflag & !0o105173u32) & !0o105173u32 == lflag & !0o105173u32 && (lflag & !0o105173u32)
        & 0o105173u32 == 0) by (bit_vector);
    assert({
        let c = (cflag & !(0o60u32 | 0o100u32 | 0o400u32)) | (0o60u32 | 0o200u32 | 0o4000u32);
        c & 0o60u32 == 0o60u32 && c & 0o500u32 == 0 && c & 0o4200u32 == 0o4200u32 && c & !0o4760u32
            == cflag & !0o4760u32
    }) by (bit_vector);
}

/// A call that moved bytes, or none, says how many; one that did not either would have blocked or
/// failed, by the system's last error.
pub proof fn lemma_return_value_is_told(n: isize, would_block: bool)
    ensures
        io_outcome(n, would_block) is Bytes <==> n >= 0,
        io_outcome(n, would_block) matches IoOutcome::Bytes(k) ==> k == n,
        io_outcome(n, would_block) is WouldBlock <==> n < 0 && would_block,
        io_outcome(n, would_block) is Failed <==> n < 0 && !would_block,
{
}

/// The numbers by which the system knows how a line is opened and set, and which signals end the
/// process.
pub proof fn lemma_numbers_of_the_system()
    ensures
        O_RDWR == 2,
        O_NOCTTY == 256,
        TCSANOW == 0,
        B115200 == 0x1002,
        SIGINT == 2,
        SIGTERM == 15,
{
}

} // verus!
