//! Finds frames in a stream of bytes that arrives in pieces.

use std::collections::VecDeque;
use vstd::prelude::*;

use crate::bytes::{push_u16_le, read_u16_le, u16_le, u16_of_le};
use crate::crc::crc8;
use crate::error::FrameError;
use crate::protocol::{
    frame_crc, length_field, parse_payload, Frame, FrameModel, HEAD_BYTE, MAX_PAYLOAD_LEN,
};

verus! {

/// Where the reader stands inside a frame.
#[derive(Debug, Clone, Copy, PartialEq, Eq, Structural)]
pub enum ReadState {
    /// Looking for the byte that opens a frame.
    Syncing,
    /// Waiting for the length field.
    ReadingLen,
    /// Waiting for `len` bytes of payload and the checksum.
    ReadingData { len: u16 },
}

/// What reading a frame comes to.
#[verifier::ext_equal]
pub enum Outcome {
    Parsed(FrameModel),
    CrcMismatch { expected: u8, actual: u8 },
    InvalidFrame,
    Oversize(nat),
}

/// A frame reader as a mathematical value.
#[verifier::ext_equal]
pub struct ReaderModel {
    pub state: ReadState,
    pub buffer: Seq<u8>,
}

/// The result that stands for an outcome.
pub open spec fn is_outcome(r: Result<Frame, FrameError>, o: Outcome) -> bool {
    match r {
        Ok(frame) => o == Outcome::Parsed(frame@),
        Err(FrameError::CrcMismatch { expected, actual }) => o == Outcome::CrcMismatch {
            expected,
            actual,
        },
        Err(FrameError::InvalidFrame) => o == Outcome::InvalidFrame,
        Err(FrameError::Oversize(n)) => o == Outcome::Oversize(n as nat),
        Err(_) => false,
    }
}

/// The bytes from the first opening byte on.
pub open spec fn skip_to_head(b: Seq<u8>) -> Seq<u8>
    decreases b.len(),
{
    if b.len() == 0 || b[0] == HEAD_BYTE {
        b
    } else {
        skip_to_head(b.skip(1))
    }
}

/// What a complete payload with its checksum comes to.
pub open spec fn check_frame(payload: Seq<u8>, crc: u8) -> Outcome {
    if frame_crc(payload) != crc {
        Outcome::CrcMismatch { expected: frame_crc(payload), actual: crc }
    } else {
        match parse_payload(payload) {
            Some(frame) => Outcome::Parsed(frame),
            None => Outcome::InvalidFrame,
        }
    }
}

/// One advance of a reader that knows the payload length.
pub open spec fn advance_data(len: u16, b: Seq<u8>) -> (Option<Outcome>, ReaderModel) {
    if b.len() < len + 1 {
        (None, ReaderModel { state: ReadState::ReadingData { len }, buffer: b })
    } else {
        (
            Some(check_frame(b.take(len as int), b[len as int])),
            ReaderModel { state: ReadState::Syncing, buffer: b.skip(len + 1) },
        )
    }
}

/// One advance of a reader behind an opening byte.
pub open spec fn advance_len(b: Seq<u8>) -> (Option<Outcome>, ReaderModel) {
    if b.len() < 2 {
        (None, ReaderModel { state: ReadState::ReadingLen, buffer: b })
    } else {
        let len = u16_of_le(b[0], b[1]);
        if len == 0 || len > MAX_PAYLOAD_LEN {
            (
                Some(Outcome::Oversize(len as nat)),
                ReaderModel { state: ReadState::Syncing, buffer: b.skip(2) },
            )
        } else {
            advance_data(len, b.skip(2))
        }
    }
}

/// One advance of a reader that looks for a frame.
pub open spec fn advance_sync(b: Seq<u8>) -> (Option<Outcome>, ReaderModel) {
    let found = skip_to_head(b);
    if found.len() == 0 {
        (None, ReaderModel { state: ReadState::Syncing, buffer: found })
    } else {
        advance_len(found.skip(1))
    }
}

/// One advance of a reader: what it reports, and the reader afterwards.
pub open spec fn advance(m: ReaderModel) -> (Option<Outcome>, ReaderModel) {
    match m.state {
        ReadState::Syncing => advance_sync(m.buffer),
        ReadState::ReadingLen => advance_len(m.buffer),
        ReadState::ReadingData { len } => advance_data(len, m.buffer),
    }
}

/// The reader after `data` has arrived. A reader that holds too much starts over first.
pub open spec fn feed(m: ReaderModel, data: Seq<u8>) -> ReaderModel {
    if m.buffer.len() > 2 * MAX_PAYLOAD_LEN {
        ReaderModel { state: ReadState::Syncing, buffer: data }
    } else {
        ReaderModel { state: m.state, buffer: m.buffer + data }
    }
}

/// A frame reader.
pub struct FrameReader {
    buffer: VecDeque<u8>,
    state: ReadState,
}

impl View for FrameReader {
    type V = ReaderModel;

    closed spec fn view(&self) -> ReaderModel {
        ReaderModel { state: self.state, buffer: self.buffer@ }
    }
}

impl FrameReader {
    /// A reader that has seen nothing.
    pub fn new() -> (r: Self)
        ensures
            r@ == (ReaderModel { state: ReadState::Syncing, buffer: Seq::empty() }),
    {
        FrameReader { buffer: VecDeque::with_capacity(4096), state: ReadState::Syncing }
    }

    /// Adds bytes that have arrived.
    pub fn feed_data(&mut self, data: &[u8])
        ensures
            final(self)@ == feed(old(self)@, data@),
    {
        if self.buffer.len() > MAX_PAYLOAD_LEN * 2 {
            self.buffer.clear();
            self.state = ReadState::Syncing;
        }
        let ghost start = self.buffer@;
        let ghost state = self.state;
        let mut i: usize = 0;
        while i < data.len()
            invariant
                i <= data.len(),
                self.state == state,
                self.buffer@ =~= start + data@.take(i as int),
            decreases data.len() - i,
        {
            self.buffer.push_back(data[i]);
            i += 1;
        }
        assert(data@.take(data.len() as int) =~= data@);
        assert(self@ =~= feed(old(self)@, data@));
    }

    /// Takes the next frame, or the next fault, out of the bytes that have arrived. `None` when
    /// more bytes are needed.
    pub fn try_advance(&mut self) -> (r: Option<Result<Frame, FrameError>>)
        ensures
            final(self)@ == advance(old(self)@).1,
            match r {
                Some(result) => advance(old(self)@).0 is Some && is_outcome(
                    result,
                    advance(old(self)@).0->0,
                ),
                None => advance(old(self)@).0 is None,
            },
    {
        match self.state {
            ReadState::Syncing => self.advance_from_sync(),
            ReadState::ReadingLen => self.advance_from_len(),
            ReadState::ReadingData { len } => self.advance_from_data(len),
        }
    }

    fn advance_from_sync(&mut self) -> (r: Option<Result<Frame, FrameError>>)
        ensures
            final(self)@ == advance_sync(old(self)@.buffer).1,
            match r {
                Some(result) => advance_sync(old(self)@.buffer).0 is Some && is_outcome(
                    result,
                    advance_sync(old(self)@.buffer).0->0,
                ),
                None => advance_sync(old(self)@.buffer).0 is None,
            },
    {
        let ghost all = self.buffer@;
        while self.buffer.len() > 0 && self.buffer[0] != HEAD_BYTE
            invariant
                skip_to_head(self.buffer@) == skip_to_head(all),
            decreases self.buffer@.len(),
        {
            let ghost before = self.buffer@;
            let _ = self.buffer.pop_front();
            assert(self.buffer@ =~= before.skip(1));
        }
        if self.buffer.len() == 0 {
            self.state = ReadState::Syncing;
            return None;
        }
        let ghost before = self.buffer@;
        let _ = self.buffer.pop_front();
        assert(self.buffer@ =~= before.skip(1));
        self.state = ReadState::ReadingLen;
        self.advance_from_len()
    }

    fn advance_from_len(&mut self) -> (r: Option<Result<Frame, FrameError>>)
        ensures
            final(self)@ == advance_len(old(self)@.buffer).1,
            match r {
                Some(result) => advance_len(old(self)@.buffer).0 is Some && is_outcome(
                    result,
                    advance_len(old(self)@.buffer).0->0,
                ),
                None => advance_len(old(self)@.buffer).0 is None,
            },
    {
        let ghost all = self.buffer@;
        if self.buffer.len() < 2 {
            self.state = ReadState::ReadingLen;
            return None;
        }
        let lo = self.buffer[0];
        let hi = self.buffer[1];
        let _ = self.buffer.pop_front();
        let _ = self.buffer.pop_front();
        assert(self.buffer@ =~= all.skip(2));
        let len = read_u16_le(lo, hi);
        if len == 0 || len as usize > MAX_PAYLOAD_LEN {
            self.state = ReadState::Syncing;
            return Some(Err(FrameError::Oversize(len as usize)));
        }
        self.state = ReadState::ReadingData { len };
        self.advance_from_data(len)
    }

    fn advance_from_data(&mut self, len: u16) -> (r: Option<Result<Frame, FrameError>>)
        ensures
            final(self)@ == advance_data(len, old(self)@.buffer).1,
            match r {
                Some(result) => advance_data(len, old(self)@.buffer).0 is Some && is_outcome(
                    result,
                    advance_data(len, old(self)@.buffer).0->0,
                ),
                None => advance_data(len, old(self)@.buffer).0 is None,
            },
    {
        let ghost all = self.buffer@;
        let need: usize = len as usize;
        if self.buffer.len() <= need {
            self.state = ReadState::ReadingData { len };
            return None;
        }
        let mut covered: Vec<u8> = Vec::new();
        push_u16_le(&mut covered, len);
        let mut payload: Vec<u8> = Vec::new();
        let mut i: usize = 0;
        assert(all.skip(0) =~= all);
        assert(all.take(0) =~= Seq::<u8>::empty());
        while i < need
            invariant
                i <= need < all.len(),
                self.buffer@ == all.skip(i as int),
                payload@ == all.take(i as int),
                covered@ =~= u16_le(len) + all.take(i as int),
            decreases need - i,
        {
            let b = self.buffer[0];
            let _ = self.buffer.pop_front();
            payload.push(b);
            covered.push(b);
            assert(self.buffer@ =~= all.skip(i + 1));
            assert(payload@ =~= all.take(i + 1));
            i += 1;
        }
        let crc_byte = self.buffer[0];
        let _ = self.buffer.pop_front();
        assert(self.buffer@ =~= all.skip(need + 1));
        let expected_crc = crc8(covered.as_slice());
        self.state = ReadState::Syncing;
        assert(length_field(payload@) == len);
        if expected_crc != crc_byte {
            return Some(
                Err(FrameError::CrcMismatch { expected: expected_crc, actual: crc_byte }),
            );
        }
        Some(Frame::from_payload(payload.as_slice()))
    }

    /// The name of the state that the reader is in.
    pub fn state_name(&self) -> (r: &'static str)
        ensures
            r@ == (match self@.state {
                ReadState::Syncing => "Syncing"@,
                ReadState::ReadingLen => "ReadingLen"@,
                ReadState::ReadingData { .. } => "ReadingData"@,
            }),
    {
        match self.state {
            ReadState::Syncing => "Syncing",
            ReadState::ReadingLen => "ReadingLen",
            ReadState::ReadingData { .. } => "ReadingData",
        }
    }
}

} // verus!
