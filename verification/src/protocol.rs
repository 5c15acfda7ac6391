//! The frames of the wire and their bytes.
//!
//! A frame is `0xAA`, the payload length in two bytes, the payload and a checksum of length and
//! payload. The elements of a matrix are 32-bit floats; a frame holds their bit patterns.

use vstd::prelude::*;
use vstd::string::*;

use crate::bytes::{
    lemma_words_bytes_round_trip, lemma_words_round_trip, push_u16_le, push_words_le,
    read_u32_le, u16_le, words_le, words_of_le,
};
use crate::crc::{crc8, crc8_of};
use crate::error::FrameError;

verus! {

/// The byte that opens every frame.
pub const HEAD_BYTE: u8 = 0xAA;

/// The longest payload that a reader accepts.
pub const MAX_PAYLOAD_LEN: usize = 16384;

/// The shape of a matrix.
#[derive(Debug, Clone, Copy, PartialEq, Eq, Structural)]
pub struct MatrixDims {
    pub rows: u8,
    pub cols: u8,
}

/// A frame: a product to compute, a product, or an error code.
#[derive(Debug, Clone)]
pub enum Frame {
    Request { seq: u8, dims_a: MatrixDims, dims_b: MatrixDims, data: Vec<u32> },
    Result { seq: u8, dims: MatrixDims, data: Vec<u32> },
    Error { code: u8 },
}

/// A frame as a mathematical value.
#[verifier::ext_equal]
pub enum FrameModel {
    Request { seq: u8, dims_a: MatrixDims, dims_b: MatrixDims, data: Seq<u32> },
    Result { seq: u8, dims: MatrixDims, data: Seq<u32> },
    Error { code: u8 },
}

impl View for Frame {
    type V = FrameModel;

    open spec fn view(&self) -> FrameModel {
        match *self {
            Frame::Request { seq, dims_a, dims_b, data } => FrameModel::Request {
                seq,
                dims_a,
                dims_b,
                data: data@,
            },
            Frame::Result { seq, dims, data } => FrameModel::Result { seq, dims, data: data@ },
            Frame::Error { code } => FrameModel::Error { code },
        }
    }
}

impl MatrixDims {
    /// The number of elements of a matrix of this shape.
    pub open spec fn elements(self) -> nat {
        (self.rows * self.cols) as nat
    }

    /// The number of elements of a matrix of this shape.
    pub fn count(&self) -> (r: usize)
        ensures
            r == self.elements(),
            r <= 65025,
    {
        let rows: usize = self.rows as usize;
        let cols: usize = self.cols as usize;
        assert(0 <= rows * cols <= 255 * 255) by (nonlinear_arith)
            requires
                rows <= 255,
                cols <= 255,
        ;
        rows * cols
    }
}

/// The payload of a frame.
pub open spec fn payload_of(f: FrameModel) -> Seq<u8> {
    match f {
        FrameModel::Request { seq, dims_a, dims_b, data } => seq![
            seq,
            dims_a.rows,
            dims_a.cols,
            dims_b.rows,
            dims_b.cols,
        ] + words_le(data),
        FrameModel::Result { seq, dims, data } => seq![
            seq,
            dims.rows,
            dims.cols,
            0u8,
            0u8,
        ] + words_le(data),
        FrameModel::Error { code } => seq![code],
    }
}

/// The length field of a payload: sixteen bits of its length.
pub open spec fn length_field(payload: Seq<u8>) -> u16 {
    (payload.len() % 0x1_0000) as u16
}

/// The checksum that belongs to a payload. It covers the length field too.
pub open spec fn frame_crc(payload: Seq<u8>) -> u8 {
    crc8_of(u16_le(length_field(payload)) + payload)
}

/// The bytes of the frame that carries a payload.
pub open spec fn frame_bytes(payload: Seq<u8>) -> Seq<u8> {
    seq![HEAD_BYTE] + u16_le(length_field(payload)) + payload + seq![frame_crc(payload)]
}

/// The bytes of a frame.
pub open spec fn wire_of(f: FrameModel) -> Seq<u8> {
    frame_bytes(payload_of(f))
}

/// The frame that a payload holds, if it holds one.
///
/// One byte is an error code. Otherwise five bytes come first, and as many elements as they
/// announce must follow; a second shape of zeros marks a result.
pub open spec fn parse_payload(p: Seq<u8>) -> Option<FrameModel> {
    if p.len() == 1 {
        Some(FrameModel::Error { code: p[0] })
    } else if p.len() < 5 {
        None
    } else {
        let seq = p[0];
        let dims_a = MatrixDims { rows: p[1], cols: p[2] };
        let dims_b = MatrixDims { rows: p[3], cols: p[4] };
        let body = p.skip(5);
        if dims_b.rows == 0 && dims_b.cols == 0 {
            if body.len() == 4 * dims_a.elements() {
                Some(FrameModel::Result { seq, dims: dims_a, data: words_of_le(body) })
            } else {
                None
            }
        } else if body.len() == 4 * (dims_a.elements() + dims_b.elements()) {
            Some(FrameModel::Request { seq, dims_a, dims_b, data: words_of_le(body) })
        } else {
            None
        }
    }
}

/// The frames that a payload can carry: the elements match the shapes, and the second shape of
/// a request is not the mark of a result.
pub open spec fn well_formed(f: FrameModel) -> bool {
    match f {
        FrameModel::Request { dims_a, dims_b, data, .. } => {
            &&& data.len() == dims_a.elements() + dims_b.elements()
            &&& !(dims_b.rows == 0 && dims_b.cols == 0)
        },
        FrameModel::Result { dims, data, .. } => data.len() == dims.elements(),
        FrameModel::Error { .. } => true,
    }
}

/// Reading the payload of a well-formed frame gives the frame back.
pub proof fn lemma_payload_round_trip(f: FrameModel)
    requires
        well_formed(f),
    ensures
        parse_payload(payload_of(f)) == Some(f),
{
    let p = payload_of(f);
    match f {
        FrameModel::Request { seq, dims_a, dims_b, data } => {
            assert(p.skip(5) =~= words_le(data));
            lemma_words_round_trip(data);
        },
        FrameModel::Result { seq, dims, data } => {
            assert(p.skip(5) =~= words_le(data));
            lemma_words_round_trip(data);
        },
        FrameModel::Error { code } => {},
    }
}

/// A payload that is accepted holds a well-formed frame, and it is that frame's only payload.
pub proof fn lemma_payload_is_canonical(p: Seq<u8>)
    requires
        parse_payload(p) is Some,
    ensures
        well_formed(parse_payload(p)->0),
        payload_of(parse_payload(p)->0) == p,
{
    let f = parse_payload(p)->0;
    if p.len() == 1 {
        assert(payload_of(f) =~= p);
    } else {
        let body = p.skip(5);
        let dims_a = MatrixDims { rows: p[1], cols: p[2] };
        let dims_b = MatrixDims { rows: p[3], cols: p[4] };
        let na = dims_a.elements();
        let nb = dims_b.elements();
        assert(body.len() == 4 * na || body.len() == 4 * (na + nb));
        assert(body.len() % 4 == 0);
        lemma_words_bytes_round_trip(body);
        assert(p =~= seq![p[0], p[1], p[2], p[3], p[4]] + body);
        assert(words_of_le(body).len() == body.len() / 4);
    }
}

/// Two well-formed frames with the same bytes are one frame.
pub proof fn lemma_wire_is_injective(f: FrameModel, g: FrameModel)
    requires
        well_formed(f),
        well_formed(g),
        wire_of(f) == wire_of(g),
    ensures
        f == g,
{
    let p = payload_of(f);
    let q = payload_of(g);
    assert(wire_of(f).len() == p.len() + 4);
    assert(wire_of(g).len() == q.len() + 4);
    assert(wire_of(f).subrange(3, 3 + p.len() as int) =~= p);
    assert(wire_of(g).subrange(3, 3 + q.len() as int) =~= q);
    lemma_payload_round_trip(f);
    lemma_payload_round_trip(g);
}

/// An error frame is five bytes: the opening byte, a length of one, the code and the checksum.
pub proof fn lemma_error_frame_layout(code: u8)
    ensures
        wire_of(FrameModel::Error { code }) == seq![
            HEAD_BYTE,
            1u8,
            0u8,
            code,
            crc8_of(seq![1u8, 0u8, code]),
        ],
{
    let p = seq![code];
    assert(length_field(p) == 1);
    assert(u16_le(1) =~= seq![1u8, 0u8]);
    assert(u16_le(1) + p =~= seq![1u8, 0u8, code]);
    assert(wire_of(FrameModel::Error { code }) =~= seq![
        HEAD_BYTE,
        1u8,
        0u8,
        code,
        crc8_of(seq![1u8, 0u8, code]),
    ]);
}

impl Frame {
    /// The bytes of this frame.
    pub fn to_bytes(&self) -> (r: Vec<u8>)
        ensures
            r@ == wire_of(self@),
    {
        let mut payload: Vec<u8> = Vec::new();
        match self {
            Frame::Request { seq, dims_a, dims_b, data } => {
                payload.push(*seq);
                payload.push(dims_a.rows);
                payload.push(dims_a.cols);
                payload.push(dims_b.rows);
                payload.push(dims_b.cols);
                push_words_le(&mut payload, data);
            },
            Frame::Result { seq, dims, data } => {
                payload.push(*seq);
                payload.push(dims.rows);
                payload.push(dims.cols);
                payload.push(0x00);
                payload.push(0x00);
                push_words_le(&mut payload, data);
            },
            Frame::Error { code } => {
                payload.push(*code);
            },
        }
        assert(payload@ =~= payload_of(self@));
        encode_frame(&payload)
    }

    /// The frame that `payload` holds.
    pub fn from_payload(payload: &[u8]) -> (r: Result<Self, FrameError>)
        ensures
            match r {
                Ok(frame) => parse_payload(payload@) == Some(frame@),
                Err(e) => parse_payload(payload@) is None && e is InvalidFrame,
            },
    {
        if payload.len() == 0 {
            return Err(FrameError::InvalidFrame);
        }
        if payload.len() == 1 {
            return Ok(Frame::Error { code: payload[0] });
        }
        if payload.len() < 5 {
            return Err(FrameError::InvalidFrame);
        }
        let seq = payload[0];
        let dims_a = MatrixDims { rows: payload[1], cols: payload[2] };
        let dims_b = MatrixDims { rows: payload[3], cols: payload[4] };
        let body = vstd::slice::slice_subrange(payload, 5, payload.len());
        assert(body@ =~= payload@.skip(5));
        assert(body@.take(body@.len() as int) =~= body@);
        let a_count = dims_a.count();
        if dims_b.rows == 0 && dims_b.cols == 0 {
            if body.len() != a_count * 4 {
                return Err(FrameError::InvalidFrame);
            }
            let data = parse_f32_slice(body, a_count)?;
            return Ok(Frame::Result { seq, dims: dims_a, data });
        }
        let b_count = dims_b.count();
        if body.len() != (a_count + b_count) * 4 {
            return Err(FrameError::InvalidFrame);
        }
        let data = parse_f32_slice(body, a_count + b_count)?;
        Ok(Frame::Request { seq, dims_a, dims_b, data })
    }

    /// The name of this kind of frame.
    pub fn kind_name(&self) -> (r: &'static str)
        ensures
            r@ == (match self@ {
                FrameModel::Request { .. } => "Request"@,
                FrameModel::Result { .. } => "Result"@,
                FrameModel::Error { .. } => "Error"@,
            }),
    {
        match self {
            Frame::Request { .. } => "Request",
            Frame::Result { .. } => "Result",
            Frame::Error { .. } => "Error",
        }
    }
}

/// The bytes of the frame that carries `payload`.
pub fn encode_frame(payload: &Vec<u8>) -> (r: Vec<u8>)
    ensures
        r@ == frame_bytes(payload@),
{
    let len: u16 = (payload.len() % 0x1_0000) as u16;
    let mut covered: Vec<u8> = Vec::new();
    push_u16_le(&mut covered, len);
    covered.extend_from_slice(payload.as_slice());
    assert(covered@ =~= u16_le(len) + payload@);
    let crc = crc8(covered.as_slice());
    let mut out: Vec<u8> = Vec::new();
    out.push(HEAD_BYTE);
    out.extend_from_slice(covered.as_slice());
    out.push(crc);
    assert(out@ =~= frame_bytes(payload@));
    out
}

/// The first `count` elements that `data` holds, four bytes each.
pub fn parse_f32_slice(data: &[u8], count: usize) -> (r: Result<Vec<u32>, FrameError>)
    ensures
        match r {
            Ok(words) => 4 * count <= data@.len() && words@ == words_of_le(
                data@.take(4 * count),
            ),
            Err(e) => 4 * count > data@.len() && e is InvalidFrame,
        },
{
    let mut result: Vec<u32> = Vec::new();
    let mut i: usize = 0;
    while i < count
        invariant
            i <= count,
            4 * i <= data.len(),
            result@ =~= words_of_le(data@.take(4 * i)),
        decreases count - i,
    {
        let offset = i * 4;
        if data.len() - offset < 4 {
            return Err(FrameError::InvalidFrame);
        }
        result.push(
            read_u32_le(data[offset], data[offset + 1], data[offset + 2], data[offset + 3]),
        );
        i += 1;
    }
    Ok(result)
}

/// A matrix has as many elements as rows times columns.
pub proof fn lemma_elements_are_rows_times_columns(dims: MatrixDims)
    ensures
        dims.elements() == dims.rows * dims.cols,
        dims.elements() <= 65025,
{
    let rows = dims.rows as int;
    let cols = dims.cols as int;
    assert(0 <= rows * cols <= 255 * 255) by (nonlinear_arith)
        requires
            0 <= rows <= 255,
            0 <= cols <= 255,
    ;
}

/// A frame as a mathematical value has the fields of the frame.
pub proof fn lemma_view_keeps_fields(frame: Frame)
    ensures
        match frame {
            Frame::Request { seq, dims_a, dims_b, data } => {
                &&& frame@ is Request
                &&& frame@->Request_seq == seq
                &&& frame@->dims_a == dims_a
                &&& frame@->dims_b == dims_b
                &&& frame@->Request_data == data@
            },
            Frame::Result { seq, dims, data } => {
                &&& frame@ is Result
                &&& frame@->Result_seq == seq
                &&& frame@->dims == dims
                &&& frame@->Result_data == data@
            },
            Frame::Error { code } => frame@ is Error && frame@->code == code,
        },
{
}

/// The word that four bytes from `at` on hold, low byte first.
pub open spec fn word_at(b: Seq<u8>, at: int) -> int {
    b[at] + 256 * (b[at + 1] + 256 * (b[at + 2] + 256 * b[at + 3]))
}

/// A frame opens with `0xAA` and the length of its payload, low byte first; its last byte is the
/// checksum of all between the opening byte and itself.
pub proof fn lemma_frame_envelope(payload: Seq<u8>)
    ensures
        ({
            let w = frame_bytes(payload);
            let n = payload.len();
            &&& w.len() == n + 4
            &&& w[0] == 0xAA
            &&& w[1] + 256 * w[2] == n % 0x1_0000
            &&& w.subrange(3, 3 + n as int) == payload
            &&& w[n as int + 3] == crc8_of(w.subrange(1, 3 + n as int))
        }),
{
    let w = frame_bytes(payload);
    let n = payload.len();
    crate::bytes::lemma_low_byte_first(length_field(payload), 0);
    assert(w.subrange(3, 3 + n as int) =~= payload);
    assert(w.subrange(1, 3 + n as int) =~= u16_le(length_field(payload)) + payload);
}

/// Where the parts of a request lie in its frame: the number, rows and columns of the first, rows
/// and columns of the second matrix, and then the elements, four bytes each.
pub proof fn lemma_request_layout(f: FrameModel, k: int)
    requires
        f is Request,
    ensures
        ({
            let w = wire_of(f);
            &&& w.len() == 9 + 4 * f->Request_data.len()
            &&& w[0] == 0xAA
            &&& w[3] == f->Request_seq
            &&& w[4] == f->dims_a.rows && w[5] == f->dims_a.cols
            &&& w[6] == f->dims_b.rows && w[7] == f->dims_b.cols
            &&& 0 <= k < f->Request_data.len() ==> word_at(w, 8 + 4 * k) == f->Request_data[k]
        }),
{
    let p = payload_of(f);
    let w = wire_of(f);
    let data = f->Request_data;
    lemma_frame_envelope(p);
    assert(forall|i: int| 0 <= i < p.len() ==> w[3 + i] == #[trigger] p[i]);
    assert(w[3] == p[0] && w[4] == p[1] && w[5] == p[2] && w[6] == p[3] && w[7] == p[4]);
    if 0 <= k < data.len() {
        crate::bytes::lemma_words_lie_in_order(data, k);
        let b = words_le(data);
        assert(w[8 + 4 * k] == b[4 * k]);
        assert(w[8 + 4 * k + 1] == b[4 * k + 1]);
        assert(w[8 + 4 * k + 2] == b[4 * k + 2]);
        assert(w[8 + 4 * k + 3] == b[4 * k + 3]);
    }
}

/// Where the parts of a result lie in its frame: the number, rows and columns, two zeros, and
/// then the elements, four bytes each.
pub proof fn lemma_result_layout(f: FrameModel, k: int)
    requires
        f is Result,
    ensures
        ({
            let w = wire_of(f);
            &&& w.len() == 9 + 4 * f->Result_data.len()
            &&& w[0] == 0xAA
            &&& w[3] == f->Result_seq
            &&& w[4] == f->dims.rows && w[5] == f->dims.cols
            &&& w[6] == 0 && w[7] == 0
            &&& 0 <= k < f->Result_data.len() ==> word_at(w, 8 + 4 * k) == f->Result_data[k]
        }),
{
    let p = payload_of(f);
    let w = wire_of(f);
    let data = f->Result_data;
    lemma_frame_envelope(p);
    assert(forall|i: int| 0 <= i < p.len() ==> w[3 + i] == #[trigger] p[i]);
    assert(w[3] == p[0] && w[4] == p[1] && w[5] == p[2] && w[6] == p[3] && w[7] == p[4]);
    if 0 <= k < data.len() {
        crate::bytes::lemma_words_lie_in_order(data, k);
        let b = words_le(data);
        assert(w[8 + 4 * k] == b[4 * k]);
        assert(w[8 + 4 * k + 1] == b[4 * k + 1]);
        assert(w[8 + 4 * k + 2] == b[4 * k + 2]);
        assert(w[8 + 4 * k + 3] == b[4 * k + 3]);
    }
}

/// A payload is accepted if and only if it is one byte, or holds exactly the elements that the
/// shapes in its second to fifth byte announce.
pub proof fn lemma_accepted_payloads(p: Seq<u8>)
    ensures
        parse_payload(p) is Some <==> p.len() == 1 || (p.len() >= 5 && p.len() == 5 + 4 * (p[1] * p[2]
            + p[3] * p[4])),
{
    if p.len() >= 5 {
        let a = MatrixDims { rows: p[1], cols: p[2] };
        let b = MatrixDims { rows: p[3], cols: p[4] };
        lemma_elements_are_rows_times_columns(a);
        lemma_elements_are_rows_times_columns(b);
    }
}

/// What an accepted payload is read as: one byte is an error code; otherwise the first byte is the
/// number and the next four are two shapes, the second of which is zero by zero for a result; and
/// the elements are those behind them, in order.
pub proof fn lemma_payload_is_read(p: Seq<u8>, k: int)
    requires
        parse_payload(p) is Some,
    ensures
        ({
            let f = parse_payload(p)->0;
            &&& f is Error <==> p.len() == 1
            &&& f is Result <==> p.len() >= 5 && p[3] == 0 && p[4] == 0
            &&& f is Error ==> f->code == p[0]
            &&& f is Result ==> {
                &&& f->Result_seq == p[0]
                &&& f->dims.rows == p[1] && f->dims.cols == p[2]
                &&& f->Result_data.len() == p[1] * p[2]
                &&& 0 <= k < f->Result_data.len() ==> f->Result_data[k] == word_at(p, 5 + 4 * k)
            }
            &&& f is Request ==> {
                &&& f->Request_seq == p[0]
                &&& f->dims_a.rows == p[1] && f->dims_a.cols == p[2]
                &&& f->dims_b.rows == p[3] && f->dims_b.cols == p[4]
                &&& f->Request_data.len() == p[1] * p[2] + p[3] * p[4]
                &&& 0 <= k < f->Request_data.len() ==> f->Request_data[k] == word_at(p, 5 + 4 * k)
            }
        }),
{
    lemma_accepted_payloads(p);
    if p.len() >= 5 {
        let body = p.skip(5);
        if 0 <= k < body.len() / 4 {
            assert(body[4 * k] == p[5 + 4 * k]);
            assert(body[4 * k + 1] == p[5 + 4 * k + 1]);
            assert(body[4 * k + 2] == p[5 + 4 * k + 2]);
            assert(body[4 * k + 3] == p[5 + 4 * k + 3]);
        }
    }
}

/// The frames that can be read back: the elements match the shapes, and a request's second shape
/// is not zero by zero.
pub proof fn lemma_well_formed_frames(f: FrameModel)
    ensures
        f is Error ==> well_formed(f),
        f is Result ==> (well_formed(f) <==> f->Result_data.len() == f->dims.rows * f->dims.cols),
        f is Request ==> (well_formed(f) <==> f->Request_data.len() == f->dims_a.rows
            * f->dims_a.cols + f->dims_b.rows * f->dims_b.cols && (f->dims_b.rows != 0
            || f->dims_b.cols != 0)),
{
}

} // verus!
