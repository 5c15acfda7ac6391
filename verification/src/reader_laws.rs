//! What the frame reader promises of whole streams.

use vstd::prelude::*;

use crate::bytes::{lemma_u16_round_trip, u16_le, u16_of_le};
use crate::crc::lemma_crc8_detects_one_byte;
use crate::frame_reader::{
    advance, advance_data, advance_len, check_frame, feed, skip_to_head, Outcome, ReadState,
    ReaderModel,
};
use crate::protocol::{
    frame_crc, lemma_payload_round_trip, length_field, payload_of, well_formed, wire_of,
    FrameModel, HEAD_BYTE, MAX_PAYLOAD_LEN,
};

verus! {

/// The readers that can come about: one that waits for a payload waits for an acceptable one.
pub open spec fn valid(m: ReaderModel) -> bool {
    m.state matches ReadState::ReadingData { len } ==> 1 <= len <= MAX_PAYLOAD_LEN
}

/// A reader with nothing to report.
pub open spec fn drained(m: ReaderModel) -> bool {
    advance(m).0 is None && advance(m).1 == m
}

/// Looking for the opening byte never adds bytes.
proof fn lemma_skip_shortens(b: Seq<u8>)
    ensures
        skip_to_head(b).len() <= b.len(),
        skip_to_head(b).len() > 0 ==> skip_to_head(b)[0] == HEAD_BYTE,
    decreases b.len(),
{
    if b.len() > 0 && b[0] != HEAD_BYTE {
        lemma_skip_shortens(b.skip(1));
    }
}

/// Bytes that arrive later do not change where the first opening byte is.
proof fn lemma_skip_extends(a: Seq<u8>, b: Seq<u8>)
    ensures
        skip_to_head(a).len() > 0 ==> skip_to_head(a + b) == skip_to_head(a) + b,
        skip_to_head(a).len() == 0 ==> skip_to_head(a + b) == skip_to_head(b),
    decreases a.len(),
{
    if a.len() == 0 {
        assert(a + b =~= b);
    } else if a[0] != HEAD_BYTE {
        assert((a + b).skip(1) =~= a.skip(1) + b);
        lemma_skip_extends(a.skip(1), b);
    }
}

/// Every report takes bytes out of the buffer.
pub proof fn lemma_report_consumes(m: ReaderModel)
    ensures
        advance(m).1.buffer.len() <= m.buffer.len(),
        advance(m).0 is Some ==> advance(m).1.buffer.len() < m.buffer.len(),
{
    lemma_skip_shortens(m.buffer);
}

/// A new reader is valid, and arriving bytes and advances keep a reader valid.
pub proof fn lemma_reader_stays_valid(m: ReaderModel, data: Seq<u8>)
    requires
        valid(m),
    ensures
        valid(ReaderModel { state: ReadState::Syncing, buffer: Seq::empty() }),
        valid(feed(m, data)),
        valid(advance(m).1),
{
}

/// A reader that asks for more bytes holds no more than one payload, and asks again until some
/// arrive. So what it holds is never thrown away when the next bytes arrive.
pub proof fn lemma_waiting_reader_is_small(m: ReaderModel, data: Seq<u8>)
    requires
        valid(m),
        advance(m).0 is None,
    ensures
        advance(m).1.buffer.len() <= MAX_PAYLOAD_LEN,
        drained(advance(m).1),
        feed(advance(m).1, data).buffer == advance(m).1.buffer + data,
        feed(advance(m).1, data).state == advance(m).1.state,
{
    lemma_skip_shortens(m.buffer);
}

/// A report does not depend on the bytes behind the frame, and a reader that asked for more
/// bytes goes on as if all of them had been there.
proof fn lemma_advance_extends(m: ReaderModel, more: Seq<u8>)
    ensures
        ({
            let whole = ReaderModel { state: m.state, buffer: m.buffer + more };
            let (o, next) = advance(m);
            let longer = ReaderModel { state: next.state, buffer: next.buffer + more };
            if o is Some {
                advance(whole) == (o, longer)
            } else {
                advance(whole) == advance(longer)
            }
        }),
{
    match m.state {
        ReadState::Syncing => {
            let found = skip_to_head(m.buffer);
            lemma_skip_extends(m.buffer, more);
            lemma_skip_shortens(m.buffer);
            if found.len() > 0 {
                assert((found + more).skip(1) =~= found.skip(1) + more);
                lemma_advance_len_extends(found.skip(1), more);
            } else {
                assert(found + more =~= more);
            }
        },
        ReadState::ReadingLen => {
            lemma_advance_len_extends(m.buffer, more);
        },
        ReadState::ReadingData { len } => {
            lemma_advance_data_extends(len, m.buffer, more);
        },
    }
}

proof fn lemma_advance_len_extends(b: Seq<u8>, more: Seq<u8>)
    ensures
        ({
            let (o, next) = advance_len(b);
            let longer = ReaderModel { state: next.state, buffer: next.buffer + more };
            if o is Some {
                advance_len(b + more) == (o, longer)
            } else {
                advance_len(b + more) == advance(longer)
            }
        }),
{
    if b.len() >= 2 {
        assert((b + more).skip(2) =~= b.skip(2) + more);
        lemma_advance_data_extends(u16_of_le(b[0], b[1]), b.skip(2), more);
    }
}

proof fn lemma_advance_data_extends(len: u16, b: Seq<u8>, more: Seq<u8>)
    ensures
        ({
            let (o, next) = advance_data(len, b);
            let longer = ReaderModel { state: next.state, buffer: next.buffer + more };
            if o is Some {
                advance_data(len, b + more) == (o, longer)
            } else {
                advance_data(len, b + more) == advance(longer)
            }
        }),
{
    if b.len() >= len + 1 {
        assert((b + more).take(len as int) =~= b.take(len as int));
        assert((b + more).skip(len + 1) =~= b.skip(len + 1) + more);
    }
}

/// Everything that a reader reports before it asks for more bytes, and the reader then.
pub open spec fn drain(m: ReaderModel) -> (Seq<Outcome>, ReaderModel)
    decreases m.buffer.len(),
{
    proof {
        lemma_report_consumes(m);
    }
    let (o, next) = advance(m);
    match o {
        None => (Seq::empty(), next),
        Some(outcome) => {
            let (rest, last) = drain(next);
            (seq![outcome] + rest, last)
        },
    }
}

/// A drained reader is valid, small and has nothing to report.
pub proof fn lemma_drain_ends(m: ReaderModel)
    requires
        valid(m),
    ensures
        valid(drain(m).1),
        drained(drain(m).1),
        drain(m).1.buffer.len() <= MAX_PAYLOAD_LEN,
    decreases m.buffer.len(),
{
    lemma_report_consumes(m);
    lemma_reader_stays_valid(m, Seq::empty());
    if advance(m).0 is Some {
        lemma_drain_ends(advance(m).1);
    } else {
        lemma_waiting_reader_is_small(m, Seq::empty());
    }
}

/// Bytes behind those that a reader holds change nothing of what it reports of the first ones.
proof fn lemma_drain_extends(m: ReaderModel, more: Seq<u8>)
    ensures
        ({
            let whole = ReaderModel { state: m.state, buffer: m.buffer + more };
            let (first, mid) = drain(m);
            let (second, last) = drain(
                ReaderModel { state: mid.state, buffer: mid.buffer + more },
            );
            drain(whole) == (first + second, last)
        }),
    decreases m.buffer.len(),
{
    let whole = ReaderModel { state: m.state, buffer: m.buffer + more };
    let (o, next) = advance(m);
    lemma_report_consumes(m);
    lemma_advance_extends(m, more);
    let longer = ReaderModel { state: next.state, buffer: next.buffer + more };
    if o is Some {
        lemma_drain_extends(next, more);
        let (first, mid) = drain(next);
        let (second, last) = drain(ReaderModel { state: mid.state, buffer: mid.buffer + more });
        assert(drain(whole) == (seq![o->0] + drain(longer).0, drain(longer).1));
        assert(seq![o->0] + (first + second) =~= (seq![o->0] + first) + second);
    } else {
        let (second, last) = drain(longer);
        assert(drain(whole) == drain(longer));
        assert(Seq::<Outcome>::empty() + second =~= second);
    }
}

/// It does not matter in which pieces a stream arrives: reading everything after each of two
/// pieces reports what reading both at once reports, and leaves the same reader.
pub proof fn lemma_pieces_do_not_matter(m: ReaderModel, a: Seq<u8>, b: Seq<u8>)
    requires
        valid(m),
        drained(m),
    ensures
        ({
            let (first, mid) = drain(feed(m, a));
            let (second, last) = drain(feed(mid, b));
            drain(feed(m, a + b)) == (first + second, last)
        }),
{
    lemma_waiting_reader_is_small(m, a);
    lemma_waiting_reader_is_small(m, a + b);
    lemma_reader_stays_valid(m, a);
    let fed = feed(m, a);
    lemma_drain_ends(fed);
    lemma_waiting_reader_is_small(drain(fed).1, b);
    lemma_drain_extends(fed, b);
    assert((m.buffer + a) + b =~= m.buffer + (a + b));
}

/// Bytes without an opening byte are passed over.
proof fn lemma_skip_noise(noise: Seq<u8>, b: Seq<u8>)
    requires
        forall|i: int| 0 <= i < noise.len() ==> noise[i] != HEAD_BYTE,
    ensures
        skip_to_head(noise + b) == skip_to_head(b),
    decreases noise.len(),
{
    if noise.len() == 0 {
        assert(noise + b =~= b);
    } else {
        assert((noise + b).skip(1) =~= noise.skip(1) + b);
        lemma_skip_noise(noise.skip(1), b);
    }
}

/// What the reader makes of an opening byte, a length, as many bytes and a checksum, whatever
/// stands before and behind them.
proof fn lemma_advance_over_frame(noise: Seq<u8>, payload: Seq<u8>, crc: u8, behind: Seq<u8>)
    requires
        forall|i: int| 0 <= i < noise.len() ==> noise[i] != HEAD_BYTE,
        1 <= payload.len() <= MAX_PAYLOAD_LEN,
    ensures
        advance(
            ReaderModel {
                state: ReadState::Syncing,
                buffer: noise + (seq![HEAD_BYTE] + u16_le(length_field(payload)) + payload
                    + seq![crc]) + behind,
            },
        ) == (
            Some(check_frame(payload, crc)),
            ReaderModel { state: ReadState::Syncing, buffer: behind },
        ),
{
    let frame = seq![HEAD_BYTE] + u16_le(length_field(payload)) + payload + seq![crc];
    let all = noise + frame + behind;
    let rest = frame + behind;
    assert(all =~= noise + rest);
    lemma_skip_noise(noise, rest);
    assert(skip_to_head(rest) == rest);
    let b = rest.skip(1);
    let len = length_field(payload);
    assert(b =~= u16_le(len) + payload + seq![crc] + behind);
    assert(b[0] == u16_le(len)[0] && b[1] == u16_le(len)[1]);
    lemma_u16_round_trip(len);
    let body = b.skip(2);
    assert(body =~= payload + seq![crc] + behind);
    assert(body.take(len as int) =~= payload);
    assert(body[len as int] == crc);
    assert(body.skip(len + 1) =~= behind);
}

/// The bytes of a well-formed frame are read as that frame, whatever stands behind them, and
/// whatever bytes that open no frame stand before them.
pub proof fn lemma_frame_is_read(noise: Seq<u8>, f: FrameModel, behind: Seq<u8>)
    requires
        forall|i: int| 0 <= i < noise.len() ==> noise[i] != HEAD_BYTE,
        well_formed(f),
        payload_of(f).len() <= MAX_PAYLOAD_LEN,
    ensures
        advance(
            ReaderModel {
                state: ReadState::Syncing,
                buffer: noise + wire_of(f) + behind,
            },
        ) == (
            Some(Outcome::Parsed(f)),
            ReaderModel { state: ReadState::Syncing, buffer: behind },
        ),
{
    let p = payload_of(f);
    lemma_advance_over_frame(noise, p, frame_crc(p), behind);
    lemma_payload_round_trip(f);
}

/// The bytes of a run of frames.
pub open spec fn stream_of(frames: Seq<FrameModel>) -> Seq<u8>
    decreases frames.len(),
{
    if frames.len() == 0 {
        Seq::empty()
    } else {
        wire_of(frames[0]) + stream_of(frames.skip(1))
    }
}

/// A run of well-formed frames is read as those frames, in order, and nothing is left over.
pub proof fn lemma_stream_is_read(frames: Seq<FrameModel>)
    requires
        forall|i: int|
            0 <= i < frames.len() ==> well_formed(#[trigger] frames[i]) && payload_of(
                frames[i],
            ).len() <= MAX_PAYLOAD_LEN,
    ensures
        drain(ReaderModel { state: ReadState::Syncing, buffer: stream_of(frames) }) == (
            frames.map_values(|f: FrameModel| Outcome::Parsed(f)),
            ReaderModel { state: ReadState::Syncing, buffer: Seq::<u8>::empty() },
        ),
    decreases frames.len(),
{
    if frames.len() == 0 {
        assert(frames.map_values(|f: FrameModel| Outcome::Parsed(f)) =~= Seq::empty());
    } else {
        let rest = frames.skip(1);
        assert forall|i: int| 0 <= i < rest.len() implies well_formed(#[trigger] rest[i])
            && payload_of(rest[i]).len() <= MAX_PAYLOAD_LEN by {
            assert(rest[i] == frames[i + 1]);
        }
        let none = Seq::<u8>::empty();
        lemma_frame_is_read(none, frames[0], stream_of(rest));
        assert(none + wire_of(frames[0]) + stream_of(rest) =~= stream_of(frames));
        lemma_stream_is_read(rest);
        assert(seq![Outcome::Parsed(frames[0])] + rest.map_values(
            |f: FrameModel| Outcome::Parsed(f),
        ) =~= frames.map_values(|f: FrameModel| Outcome::Parsed(f)));
    }
}

/// A frame whose checksum arrives changed is reported as a checksum fault, with both sums.
pub proof fn lemma_changed_checksum_is_detected(
    noise: Seq<u8>,
    f: FrameModel,
    crc: u8,
    behind: Seq<u8>,
)
    requires
        forall|i: int| 0 <= i < noise.len() ==> noise[i] != HEAD_BYTE,
        payload_of(f).len() <= MAX_PAYLOAD_LEN,
        crc != frame_crc(payload_of(f)),
    ensures
        ({
            let wire = wire_of(f);
            advance(
                ReaderModel {
                    state: ReadState::Syncing,
                    buffer: noise + wire.update(wire.len() - 1, crc) + behind,
                },
            ) == (
                Some(
                    Outcome::CrcMismatch {
                        expected: frame_crc(payload_of(f)),
                        actual: crc,
                    },
                ),
                ReaderModel { state: ReadState::Syncing, buffer: behind },
            )
        }),
{
    let p = payload_of(f);
    let wire = wire_of(f);
    assert(wire.update(wire.len() - 1, crc) =~= seq![HEAD_BYTE] + u16_le(length_field(p)) + p
        + seq![crc]);
    lemma_advance_over_frame(noise, p, crc, behind);
}

/// A frame of which any one byte of the payload arrives changed is reported as a checksum
/// fault, never as a frame.
pub proof fn lemma_changed_payload_is_detected(
    noise: Seq<u8>,
    f: FrameModel,
    k: int,
    x: u8,
    behind: Seq<u8>,
)
    requires
        forall|i: int| 0 <= i < noise.len() ==> noise[i] != HEAD_BYTE,
        payload_of(f).len() <= MAX_PAYLOAD_LEN,
        0 <= k < payload_of(f).len(),
        x != payload_of(f)[k],
    ensures
        ({
            let (o, next) = advance(
                ReaderModel {
                    state: ReadState::Syncing,
                    buffer: noise + wire_of(f).update(3 + k, x) + behind,
                },
            );
            &&& o matches Some(Outcome::CrcMismatch { actual, .. })
            &&& actual == frame_crc(payload_of(f))
            &&& next == (ReaderModel { state: ReadState::Syncing, buffer: behind })
        }),
{
    let p = payload_of(f);
    let q = p.update(k, x);
    let crc = frame_crc(p);
    assert(wire_of(f).update(3 + k, x) =~= seq![HEAD_BYTE] + u16_le(length_field(q)) + q
        + seq![crc]);
    lemma_advance_over_frame(noise, q, crc, behind);
    let before = u16_le(length_field(p)) + p.take(k);
    let after = p.skip(k + 1);
    assert(u16_le(length_field(p)) + p =~= before + seq![p[k]] + after);
    assert(u16_le(length_field(q)) + q =~= before + seq![x] + after);
    lemma_crc8_detects_one_byte(before, p[k], x, after);
}

/// Bytes that arrive are added to those that wait; a reader that holds more than 32768 of them
/// forgets them and starts over.
pub proof fn lemma_bytes_are_added(m: ReaderModel, data: Seq<u8>)
    ensures
        m.buffer.len() <= 32768 ==> feed(m, data).state == m.state && feed(m, data).buffer
            == m.buffer + data,
        m.buffer.len() > 32768 ==> feed(m, data).state is Syncing && feed(m, data).buffer == data,
{
}

/// A length of zero or of more than 16384 is reported, with that length, and the reader looks for
/// the next frame right behind it.
pub proof fn lemma_bad_length_is_reported(noise: Seq<u8>, lo: u8, hi: u8, behind: Seq<u8>)
    requires
        forall|i: int| 0 <= i < noise.len() ==> noise[i] != 0xAA,
        lo + 256 * hi == 0 || lo + 256 * hi > 16384,
    ensures
        advance(
            ReaderModel {
                state: ReadState::Syncing,
                buffer: noise + seq![0xAAu8, lo, hi] + behind,
            },
        ) == (
            Some(Outcome::Oversize((lo + 256 * hi) as nat)),
            ReaderModel { state: ReadState::Syncing, buffer: behind },
        ),
{
    let rest = seq![0xAAu8, lo, hi] + behind;
    assert(noise + seq![0xAAu8, lo, hi] + behind =~= noise + rest);
    lemma_skip_noise(noise, rest);
    assert(skip_to_head(rest) == rest);
    let b = rest.skip(1);
    assert(b[0] == lo && b[1] == hi);
    assert(b.skip(2) =~= behind);
}

/// What a frame with an acceptable length comes to: a checksum fault with both sums if its last
/// byte is not the checksum of length and payload, otherwise the frame that the payload holds, or
/// that it holds none. The reader goes on right behind it.
pub proof fn lemma_whole_frame_is_judged(noise: Seq<u8>, payload: Seq<u8>, crc: u8, behind: Seq<u8>)
    requires
        forall|i: int| 0 <= i < noise.len() ==> noise[i] != 0xAA,
        1 <= payload.len() <= 16384,
    ensures
        ({
            let lo = (payload.len() % 256) as u8;
            let hi = (payload.len() / 256) as u8;
            let sum = crate::crc::crc8_of(seq![lo, hi] + payload);
            let (o, next) = advance(
                ReaderModel {
                    state: ReadState::Syncing,
                    buffer: noise + (seq![0xAAu8, lo, hi] + payload + seq![crc]) + behind,
                },
            );
            &&& crc != sum ==> o == Some(Outcome::CrcMismatch { expected: sum, actual: crc })
            &&& crc == sum && crate::protocol::parse_payload(payload) is Some ==> o == Some(
                Outcome::Parsed(crate::protocol::parse_payload(payload)->0),
            )
            &&& crc == sum && crate::protocol::parse_payload(payload) is None ==> o == Some(
                Outcome::InvalidFrame,
            )
            &&& next == (ReaderModel { state: ReadState::Syncing, buffer: behind })
        }),
{
    let lo = (payload.len() % 256) as u8;
    let hi = (payload.len() / 256) as u8;
    assert(u16_le(length_field(payload)) =~= seq![lo, hi]);
    assert(seq![0xAAu8, lo, hi] + payload + seq![crc] =~= seq![HEAD_BYTE] + u16_le(
        length_field(payload),
    ) + payload + seq![crc]);
    lemma_advance_over_frame(noise, payload, crc, behind);
}

/// A frame of which the end is missing is waited for: nothing is reported until its last byte is
/// there.
pub proof fn lemma_incomplete_frame_is_awaited(noise: Seq<u8>, f: FrameModel, n: int)
    requires
        forall|i: int| 0 <= i < noise.len() ==> noise[i] != 0xAA,
        payload_of(f).len() <= 16384,
        0 <= n < wire_of(f).len(),
    ensures
        advance(
            ReaderModel { state: ReadState::Syncing, buffer: noise + wire_of(f).take(n) },
        ).0 is None,
{
    let p = payload_of(f);
    let part = wire_of(f).take(n);
    lemma_skip_noise(noise, part);
    if n == 0 {
        assert(part =~= Seq::<u8>::empty());
    } else {
        assert(part[0] == HEAD_BYTE);
        assert(skip_to_head(part) == part);
        let b = part.skip(1);
        if n >= 3 {
            let len = length_field(p);
            assert(b[0] == u16_le(len)[0] && b[1] == u16_le(len)[1]);
            lemma_u16_round_trip(len);
            assert(b.skip(2).len() == n - 3);
        }
    }
}

/// Bytes that open no frame are dropped without a word.
pub proof fn lemma_noise_is_dropped(noise: Seq<u8>)
    requires
        forall|i: int| 0 <= i < noise.len() ==> noise[i] != 0xAA,
    ensures
        advance(ReaderModel { state: ReadState::Syncing, buffer: noise }) == (
            None::<Outcome>,
            ReaderModel { state: ReadState::Syncing, buffer: Seq::<u8>::empty() },
        ),
{
    let none = Seq::<u8>::empty();
    lemma_skip_noise(noise, none);
    assert(noise + none =~= noise);
}

/// What a reader hands out is what it found: a frame, or the fault with its figures.
pub proof fn lemma_result_is_the_outcome(
    r: Result<crate::protocol::Frame, crate::error::FrameError>,
    o: Outcome,
)
    requires
        crate::frame_reader::is_outcome(r, o),
    ensures
        r is Ok <==> o is Parsed,
        r matches Ok(frame) ==> o == Outcome::Parsed(frame@),
        o matches Outcome::CrcMismatch { expected, actual } ==> r == Err::<
            crate::protocol::Frame,
            crate::error::FrameError,
        >(crate::error::FrameError::CrcMismatch { expected, actual }),
        o is InvalidFrame ==> (r matches Err(e) && e is InvalidFrame),
        o matches Outcome::Oversize(n) ==> (r matches Err(crate::error::FrameError::Oversize(k))
            && k == n),
{
}

} // verus!
