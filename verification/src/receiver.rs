//! The receiving end of the serial line: what is done about the bytes that arrive, and what is
//! answered.

use vstd::prelude::*;
use vstd::string::*;

use crate::compute;
use crate::compute::process_frame;
use crate::error;
use crate::error::{ComputeError, FrameError};
use crate::frame_reader;
use crate::frame_reader::{FrameReader, Outcome, ReadState, ReaderModel};
use crate::protocol;
use crate::protocol::{Frame, FrameModel, MatrixDims, HEAD_BYTE, MAX_PAYLOAD_LEN};
use crate::reader_laws;
use crate::text;
use crate::text::{push_decimal, push_hex_byte};

verus! {

/// What is done about something that the reader found.
#[derive(Debug)]
pub enum Action {
    /// Compute the product that the frame asks for, and answer.
    Compute(Frame),
    /// Send these bytes: the frame was damaged on its way.
    Reply { bytes: Vec<u8>, expected: u8, actual: u8 },
    /// Nothing.
    Ignore(FrameError),
}

/// The answer to a damaged frame.
pub open spec fn damage_report() -> FrameModel {
    FrameModel::Error { code: error::compute_error_code(ComputeError::CrcError) }
}

/// The action is the one for what the reader found.
pub open spec fn is_action(a: Action, o: Outcome) -> bool {
    match a {
        Action::Compute(frame) => o == Outcome::Parsed(frame@),
        Action::Reply { bytes, expected, actual } => {
            &&& o == (Outcome::CrcMismatch { expected, actual })
            &&& bytes@ == protocol::wire_of(damage_report())
        },
        Action::Ignore(e) => !(o is CrcMismatch) && frame_reader::is_outcome(Err(e), o),
    }
}

/// Takes in bytes that arrived, and says what is done about each thing found in them, in order.
pub fn on_data(reader: &mut FrameReader, data: &[u8]) -> (r: Vec<Action>)
    ensures
        ({
            let (found, last) = reader_laws::drain(frame_reader::feed(old(reader)@, data@));
            &&& final(reader)@ == last
            &&& r@.len() == found.len()
            &&& forall|i: int| 0 <= i < found.len() ==> is_action(#[trigger] r@[i], found[i])
        }),
{
    reader.feed_data(data);
    let ghost start = reader@;
    let ghost mut done = Seq::<Outcome>::empty();
    let mut actions: Vec<Action> = Vec::new();
    assert(reader_laws::drain(start).0 =~= done + reader_laws::drain(reader@).0);
    loop
        invariant
            reader_laws::drain(start).0 == done + reader_laws::drain(reader@).0,
            reader_laws::drain(start).1 == reader_laws::drain(reader@).1,
            actions@.len() == done.len(),
            forall|i: int| 0 <= i < done.len() ==> is_action(#[trigger] actions@[i], done[i]),
        ensures
            reader_laws::drain(start).0 == done,
            reader_laws::drain(start).1 == reader@,
            actions@.len() == done.len(),
            forall|i: int| 0 <= i < done.len() ==> is_action(#[trigger] actions@[i], done[i]),
        decreases reader@.buffer.len(),
    {
        let ghost now = reader@;
        proof {
            reader_laws::lemma_report_consumes(now);
        }
        match reader.try_advance() {
            None => {
                assert(reader_laws::drain(now).0 =~= Seq::<Outcome>::empty());
                assert(done + Seq::<Outcome>::empty() =~= done);
                break;
            },
            Some(result) => {
                let ghost o = frame_reader::advance(now).0->0;
                let action = match result {
                    Ok(frame) => Action::Compute(frame),
                    Err(FrameError::CrcMismatch { expected, actual }) => Action::Reply {
                        bytes: write_error_frame(ComputeError::CrcError.code()),
                        expected,
                        actual,
                    },
                    Err(e) => Action::Ignore(e),
                };
                assert(is_action(action, o));
                actions.push(action);
                proof {
                    let rest = reader_laws::drain(reader@).0;
                    assert(reader_laws::drain(now).0 =~= seq![o] + rest);
                    assert(done + (seq![o] + rest) =~= done.push(o) + rest);
                    done = done.push(o);
                }
            },
        }
    }
    actions
}

/// The answer to a frame. `product` holds the product that it asks for, column by column.
pub open spec fn answer(f: FrameModel, product: Seq<u32>) -> FrameModel {
    match compute::refusal(f) {
        Some(e) => FrameModel::Error { code: error::compute_error_code(e) },
        None => {
            let dims = compute::product_dims(f);
            FrameModel::Result {
                seq: f->Request_seq,
                dims,
                data: compute::by_rows(product, dims.rows as nat, dims.cols as nat),
            }
        },
    }
}

/// The answer to `frame`.
pub fn respond(frame: &Frame, product: &Vec<u32>) -> (r: Frame)
    requires
        compute::refusal(frame@) is None ==> product@.len() == compute::product_dims(
            frame@,
        ).elements(),
    ensures
        r@ == answer(frame@, product@),
{
    let seq = match frame {
        Frame::Request { seq, .. } => *seq,
        _ => 0,
    };
    match process_frame(frame, product) {
        Ok(result) => Frame::Result {
            seq,
            dims: MatrixDims { rows: result.rows, cols: result.cols },
            data: result.data,
        },
        Err(e) => Frame::Error { code: e.code() },
    }
}

/// The bytes of the answer to `frame`.
pub fn compute_one_frame(frame: &Frame, product: &Vec<u32>) -> (r: Vec<u8>)
    requires
        compute::refusal(frame@) is None ==> product@.len() == compute::product_dims(
            frame@,
        ).elements(),
    ensures
        r@ == protocol::wire_of(answer(frame@, product@)),
{
    respond(frame, product).to_bytes()
}

/// The bytes of an error frame.
pub fn write_error_frame(code: u8) -> (r: Vec<u8>)
    ensures
        r@ == protocol::wire_of(FrameModel::Error { code }),
{
    Frame::Error { code }.to_bytes()
}

/// A frame in a few words.
pub open spec fn summary_of(f: FrameModel) -> Seq<char> {
    match f {
        FrameModel::Request { seq, dims_a, dims_b, data } => "Request seq="@ + text::decimal(
            seq as nat,
        ) + " A="@ + text::decimal(dims_a.rows as nat) + "x"@ + text::decimal(dims_a.cols as nat)
            + " B="@ + text::decimal(dims_b.rows as nat) + "x"@ + text::decimal(dims_b.cols as nat)
            + " ("@ + text::decimal(data.len()) + " floats)"@,
        FrameModel::Result { seq, dims, data } => "Result seq="@ + text::decimal(seq as nat) + " "@
            + text::decimal(dims.rows as nat) + "x"@ + text::decimal(dims.cols as nat) + " ("@
            + text::decimal(data.len()) + " floats)"@,
        FrameModel::Error { code } => "Error code "@ + text::hex_byte(code),
    }
}

/// `frame` in a few words.
pub fn frame_summary(frame: &Frame) -> (r: String)
    ensures
        r@ == summary_of(frame@),
{
    let mut out = String::new();
    match frame {
        Frame::Request { seq, dims_a, dims_b, data } => {
            out.append("Request seq=");
            push_decimal(&mut out, *seq as u64);
            out.append(" A=");
            push_decimal(&mut out, dims_a.rows as u64);
            out.append("x");
            push_decimal(&mut out, dims_a.cols as u64);
            out.append(" B=");
            push_decimal(&mut out, dims_b.rows as u64);
            out.append("x");
            push_decimal(&mut out, dims_b.cols as u64);
            out.append(" (");
            push_decimal(&mut out, data.len() as u64);
            out.append(" floats)");
        },
        Frame::Result { seq, dims, data } => {
            out.append("Result seq=");
            push_decimal(&mut out, *seq as u64);
            out.append(" ");
            push_decimal(&mut out, dims.rows as u64);
            out.append("x");
            push_decimal(&mut out, dims.cols as u64);
            out.append(" (");
            push_decimal(&mut out, data.len() as u64);
            out.append(" floats)");
        },
        Frame::Error { code } => {
            out.append("Error code ");
            push_hex_byte(&mut out, *code);
        },
    }
    assert(out@ =~= summary_of(frame@));
    out
}

/// Every answer is a frame that can be read, and its number is the request's.
pub proof fn lemma_answer_is_well_formed(f: FrameModel, product: Seq<u32>)
    requires
        compute::refusal(f) is None ==> product.len() == compute::product_dims(f).elements(),
    ensures
        protocol::well_formed(answer(f, product)),
        answer(f, product) matches FrameModel::Result { seq, .. } ==> (f matches FrameModel::Request {
            seq: asked,
            ..
        } && asked == seq),
{
}

/// The far end reads the answer as it was given, unless it is longer than a reader accepts.
pub proof fn lemma_answer_is_read(f: FrameModel, product: Seq<u32>, behind: Seq<u8>)
    requires
        compute::refusal(f) is None ==> product.len() == compute::product_dims(f).elements(),
        protocol::payload_of(answer(f, product)).len() <= MAX_PAYLOAD_LEN,
    ensures
        frame_reader::advance(
            ReaderModel {
                state: ReadState::Syncing,
                buffer: protocol::wire_of(answer(f, product)) + behind,
            },
        ) == (
            Some(Outcome::Parsed(answer(f, product))),
            ReaderModel { state: ReadState::Syncing, buffer: behind },
        ),
{
    lemma_answer_is_well_formed(f, product);
    let none = Seq::<u8>::empty();
    reader_laws::lemma_frame_is_read(none, answer(f, product), behind);
    assert(none + protocol::wire_of(answer(f, product)) + behind =~= protocol::wire_of(
        answer(f, product),
    ) + behind);
}

/// What a refused request is answered: code 1 if and only if the shapes do not fit together,
/// code 3 if and only if the frame is no request or does not hold the elements it announces,
/// and otherwise a result of the product's shape.
pub proof fn lemma_refused_requests_are_answered(f: FrameModel, product: Seq<u32>)
    ensures
        answer(f, product) == (FrameModel::Error { code: 1 }) <==> (f matches FrameModel::Request {
            dims_a,
            dims_b,
            ..
        } && dims_a.cols != dims_b.rows),
        answer(f, product) == (FrameModel::Error { code: 3 }) <==> match f {
            FrameModel::Request { dims_a, dims_b, data, .. } => dims_a.cols == dims_b.rows
                && data.len() != dims_a.elements() + dims_b.elements(),
            _ => true,
        },
        answer(f, product) is Result <==> compute::refusal(f) is None,
        answer(f, product) is Result || answer(f, product) is Error,
{
}

/// A frame that was damaged on its way is reported to the sender, and costs none of the frames
/// behind it.
pub proof fn lemma_damaged_frame_costs_only_itself(
    noise: Seq<u8>,
    f: FrameModel,
    k: int,
    x: u8,
    frames: Seq<FrameModel>,
)
    requires
        forall|i: int| 0 <= i < noise.len() ==> noise[i] != HEAD_BYTE,
        protocol::payload_of(f).len() <= MAX_PAYLOAD_LEN,
        0 <= k < protocol::payload_of(f).len(),
        x != protocol::payload_of(f)[k],
        forall|i: int|
            0 <= i < frames.len() ==> protocol::well_formed(#[trigger] frames[i])
                && protocol::payload_of(frames[i]).len() <= MAX_PAYLOAD_LEN,
    ensures
        ({
            let (found, last) = reader_laws::drain(
                ReaderModel {
                    state: ReadState::Syncing,
                    buffer: noise + protocol::wire_of(f).update(3 + k, x) + reader_laws::stream_of(
                        frames,
                    ),
                },
            );
            &&& found.len() == 1 + frames.len()
            &&& found[0] is CrcMismatch
            &&& found.skip(1) == frames.map_values(|g: FrameModel| Outcome::Parsed(g))
            &&& last == (ReaderModel { state: ReadState::Syncing, buffer: Seq::<u8>::empty() })
        }),
{
    let behind = reader_laws::stream_of(frames);
    let m = ReaderModel {
        state: ReadState::Syncing,
        buffer: noise + protocol::wire_of(f).update(3 + k, x) + behind,
    };
    reader_laws::lemma_changed_payload_is_detected(noise, f, k, x, behind);
    reader_laws::lemma_stream_is_read(frames);
    let o = frame_reader::advance(m).0->0;
    let rest = frames.map_values(|g: FrameModel| Outcome::Parsed(g));
    assert(reader_laws::drain(m).0 =~= seq![o] + rest);
    assert((seq![o] + rest).skip(1) =~= rest);
}

/// A request that is not refused is answered with the product it asks for: under its own number,
/// with as many rows as the first matrix and as many columns as the second, and with row `i`,
/// column `j` of the product as element `j` of row `i`.
pub proof fn lemma_answer_holds_the_product(f: FrameModel, product: Seq<u32>, i: int, j: int)
    requires
        f is Request,
        f->dims_a.cols == f->dims_b.rows,
        f->Request_data.len() == f->dims_a.rows * f->dims_a.cols + f->dims_b.rows * f->dims_b.cols,
        product.len() == f->dims_a.rows * f->dims_b.cols,
    ensures
        answer(f, product) is Result,
        answer(f, product)->Result_seq == f->Request_seq,
        answer(f, product)->dims.rows == f->dims_a.rows,
        answer(f, product)->dims.cols == f->dims_b.cols,
        answer(f, product)->Result_data.len() == product.len(),
        0 <= i < f->dims_a.rows && 0 <= j < f->dims_b.cols ==> answer(f, product)->Result_data[i
            * f->dims_b.cols + j] == product[j * f->dims_a.rows + i],
{
    if 0 <= i < f->dims_a.rows && 0 <= j < f->dims_b.cols {
        compute::lemma_by_rows_keeps_elements(
            product,
            f->dims_a.rows as nat,
            f->dims_b.cols as nat,
            i,
            j,
        );
    }
}

/// A frame is never answered with the product of another shape: shapes that do not fit together
/// are answered with code 1, anything else that cannot be multiplied with code 3.
pub proof fn lemma_refusals_have_their_codes(f: FrameModel, product: Seq<u32>)
    ensures
        f is Request && f->dims_a.cols != f->dims_b.rows ==> answer(f, product)
            == (FrameModel::Error { code: 1 }),
        f is Request && f->dims_a.cols == f->dims_b.rows && f->Request_data.len() != f->dims_a.rows
            * f->dims_a.cols + f->dims_b.rows * f->dims_b.cols ==> answer(f, product) == (
        FrameModel::Error { code: 3 }),
        !(f is Request) ==> answer(f, product) == (FrameModel::Error { code: 3 }),
{
}

/// What is done fits what was found: a frame is computed, a damaged one is answered with code 2
/// and both checksums are told, and anything else is left alone.
pub proof fn lemma_actions_fit(a: Action, o: Outcome)
    requires
        is_action(a, o),
    ensures
        a is Compute <==> o is Parsed,
        a is Reply <==> o is CrcMismatch,
        a is Ignore <==> o is InvalidFrame || o is Oversize,
        a matches Action::Compute(frame) ==> o == Outcome::Parsed(frame@),
        a matches Action::Reply { bytes, expected, actual } ==> {
            &&& o == (Outcome::CrcMismatch { expected, actual })
            &&& bytes@.len() == 5
            &&& bytes@[0] == 0xAA && bytes@[1] == 1 && bytes@[2] == 0 && bytes@[3] == 2
        },
        a matches Action::Ignore(FrameError::Oversize(n)) ==> o == Outcome::Oversize(n as nat),
        a matches Action::Ignore(FrameError::InvalidFrame) ==> o is InvalidFrame,
{
    protocol::lemma_error_frame_layout(2);
}

/// `piece` stands in `s` from `at` on.
pub open spec fn said_at(s: Seq<char>, at: int, piece: Seq<char>) -> bool {
    &&& 0 <= at
    &&& at + piece.len() <= s.len()
    &&& s.subrange(at, at + piece.len()) == piece
}

/// `piece` stands somewhere in `s`.
pub open spec fn says(s: Seq<char>, piece: Seq<char>) -> bool {
    exists|at: int| #[trigger] said_at(s, at, piece)
}

/// What a text says at its end it says.
proof fn lemma_end_is_said(before: Seq<char>, piece: Seq<char>)
    ensures
        says(before + piece, piece),
{
    let s = before + piece;
    let at = before.len() as int;
    assert(s.subrange(at, at + piece.len()) =~= piece);
    assert(said_at(s, at, piece));
}

/// What a text says it says with more behind it.
proof fn lemma_longer_text_says_as_much(s: Seq<char>, more: Seq<char>)
    ensures
        forall|piece: Seq<char>| #[trigger] says(s, piece) ==> says(s + more, piece),
{
    assert forall|piece: Seq<char>| #[trigger] says(s, piece) implies says(s + more, piece) by {
        let at = choose|at: int| #[trigger] said_at(s, at, piece);
        assert((s + more).subrange(at, at + piece.len()) =~= s.subrange(at, at + piece.len()));
        assert(said_at(s + more, at, piece));
    }
}

/// A word, a shape and a word, one behind the other.
proof fn lemma_shape_is_said(
    s: Seq<char>,
    head: Seq<char>,
    rows: Seq<char>,
    x: Seq<char>,
    cols: Seq<char>,
    tail: Seq<char>,
)
    ensures
        says(s + head + rows + x + cols + tail, head + rows + x + cols + tail),
{
    let piece = head + rows + x + cols + tail;
    assert(s + piece =~= s + head + rows + x + cols + tail);
    lemma_end_is_said(s, piece);
}

/// A word, a number and a word, one behind the other.
proof fn lemma_number_is_said(s: Seq<char>, head: Seq<char>, n: Seq<char>, tail: Seq<char>)
    ensures
        says(s + head + n + tail, head + n + tail),
{
    let piece = head + n + tail;
    assert(s + piece =~= s + head + n + tail);
    lemma_end_is_said(s, piece);
}

/// A frame in a few words says its number, its shapes, how many elements it holds, or its code,
/// each next to what it is.
pub proof fn lemma_summary_says_all(f: FrameModel)
    ensures
        f is Request ==> {
            let s = summary_of(f);
            &&& says(s, "Request seq="@ + text::decimal(f->Request_seq as nat) + " A="@)
            &&& says(
                s,
                " A="@ + text::decimal(f->dims_a.rows as nat) + "x"@ + text::decimal(
                    f->dims_a.cols as nat,
                ) + " B="@,
            )
            &&& says(
                s,
                " B="@ + text::decimal(f->dims_b.rows as nat) + "x"@ + text::decimal(
                    f->dims_b.cols as nat,
                ) + " ("@,
            )
            &&& says(s, " ("@ + text::decimal(f->Request_data.len()) + " floats)"@)
        },
        f is Result ==> {
            let s = summary_of(f);
            &&& says(s, "Result seq="@ + text::decimal(f->Result_seq as nat) + " "@)
            &&& says(
                s,
                " "@ + text::decimal(f->dims.rows as nat) + "x"@ + text::decimal(
                    f->dims.cols as nat,
                ) + " ("@,
            )
            &&& says(s, " ("@ + text::decimal(f->Result_data.len()) + " floats)"@)
        },
        f is Error ==> says(summary_of(f), "Error code "@ + text::hex_byte(f->code)),
{
    let none = Seq::<char>::empty();
    match f {
        FrameModel::Request { seq, dims_a, dims_b, data } => {
            let n = text::decimal(seq as nat);
            let ra = text::decimal(dims_a.rows as nat);
            let ca = text::decimal(dims_a.cols as nat);
            let rb = text::decimal(dims_b.rows as nat);
            let cb = text::decimal(dims_b.cols as nat);
            let d = text::decimal(data.len());
            let t1 = "Request seq="@ + n;
            let t2 = t1 + " A="@;
            lemma_number_is_said(none, "Request seq="@, n, " A="@);
            assert(none + "Request seq="@ =~= "Request seq="@);
            let t3 = t2 + ra + "x"@ + ca;
            let t4 = t3 + " B="@;
            lemma_shape_is_said(t1, " A="@, ra, "x"@, ca, " B="@);
            let t5 = t4 + rb + "x"@ + cb;
            let t6 = t5 + " ("@;
            lemma_shape_is_said(t3, " B="@, rb, "x"@, cb, " ("@);
            let t7 = t6 + d + " floats)"@;
            lemma_number_is_said(t5, " ("@, d, " floats)"@);
            lemma_longer_text_says_as_much(t2, ra);
            lemma_longer_text_says_as_much(t2 + ra, "x"@);
            lemma_longer_text_says_as_much(t2 + ra + "x"@, ca);
            lemma_longer_text_says_as_much(t3, " B="@);
            lemma_longer_text_says_as_much(t4, rb);
            lemma_longer_text_says_as_much(t4 + rb, "x"@);
            lemma_longer_text_says_as_much(t4 + rb + "x"@, cb);
            lemma_longer_text_says_as_much(t5, " ("@);
            lemma_longer_text_says_as_much(t6, d);
            lemma_longer_text_says_as_much(t6 + d, " floats)"@);
            assert(summary_of(f) == t7);
        },
        FrameModel::Result { seq, dims, data } => {
            let n = text::decimal(seq as nat);
            let r = text::decimal(dims.rows as nat);
            let c = text::decimal(dims.cols as nat);
            let d = text::decimal(data.len());
            let t1 = "Result seq="@ + n;
            let t2 = t1 + " "@;
            lemma_number_is_said(none, "Result seq="@, n, " "@);
            assert(none + "Result seq="@ =~= "Result seq="@);
            let t3 = t2 + r + "x"@ + c;
            let t4 = t3 + " ("@;
            lemma_shape_is_said(t1, " "@, r, "x"@, c, " ("@);
            let t5 = t4 + d + " floats)"@;
            lemma_number_is_said(t3, " ("@, d, " floats)"@);
            lemma_longer_text_says_as_much(t2, r);
            lemma_longer_text_says_as_much(t2 + r, "x"@);
            lemma_longer_text_says_as_much(t2 + r + "x"@, c);
            lemma_longer_text_says_as_much(t3, " ("@);
            lemma_longer_text_says_as_much(t4, d);
            lemma_longer_text_says_as_much(t4 + d, " floats)"@);
            assert(summary_of(f) == t5);
        },
        FrameModel::Error { code } => {
            lemma_end_is_said(none, summary_of(f));
            assert(none + summary_of(f) =~= summary_of(f));
        },
    }
}

} // verus!
