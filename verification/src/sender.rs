//! The sending end of the serial line: the requests, and the answers put back in their order.

use vstd::prelude::*;

use crate::compute;
use crate::error::FrameError;
use crate::frame_reader;
use crate::frame_reader::{FrameReader, Outcome, ReaderModel};
use crate::protocol;
use crate::protocol::{Frame, FrameModel, MatrixDims};
use crate::reader_laws;
use crate::rng;
use crate::rng::Lcg;

verus! {

/// What is added to a seed before it starts a generator.
pub const SEED_OFFSET: u32 = 0xDEAD_BEEF;

/// The elements are the first floats of the generator that `seed` starts.
pub open spec fn are_floats_of(data: Seq<u32>, seed: u32) -> bool {
    forall|i: int|
        0 <= i < data.len() ==> rng::is_unit_float(
            #[trigger] data[i],
            rng::fraction(rng::lcg_after(seed.wrapping_add(SEED_OFFSET), (i + 1) as nat)),
        )
}

/// The frame asks for the product of two matrices of the given shapes, filled from `seed`.
pub open spec fn is_request(
    f: FrameModel,
    rows_a: u8,
    cols_a: u8,
    cols_b: u8,
    number: u8,
    seed: u32,
) -> bool {
    &&& f matches FrameModel::Request { seq, dims_a, dims_b, data }
    &&& seq == number
    &&& dims_a == (MatrixDims { rows: rows_a, cols: cols_a })
    &&& dims_b == (MatrixDims { rows: cols_a, cols: cols_b })
    &&& data.len() == dims_a.elements() + dims_b.elements()
    &&& are_floats_of(data, seed)
}

/// A request for the product of two matrices filled from `seed`.
pub fn build_request(rows_a: u8, cols_a: u8, cols_b: u8, seq: u8, seed: u32) -> (r: Frame)
    ensures
        is_request(r@, rows_a, cols_a, cols_b, seq, seed),
{
    let dims_a = MatrixDims { rows: rows_a, cols: cols_a };
    let dims_b = MatrixDims { rows: cols_a, cols: cols_b };
    let count = dims_a.count() + dims_b.count();
    let ghost start = seed.wrapping_add(SEED_OFFSET);
    let mut rng = Lcg::new(seed.wrapping_add(SEED_OFFSET));
    let mut data: Vec<u32> = Vec::new();
    let mut i: usize = 0;
    while i < count
        invariant
            i <= count,
            data@.len() == i,
            start == seed.wrapping_add(SEED_OFFSET),
            rng.state == rng::lcg_after(start, i as nat),
            are_floats_of(data@, seed),
        decreases count - i,
    {
        let ghost before = data@;
        let x = rng.next_f32();
        data.push(x);
        assert forall|k: int| 0 <= k < data@.len() implies rng::is_unit_float(
            #[trigger] data@[k],
            rng::fraction(rng::lcg_after(start, (k + 1) as nat)),
        ) by {
            if k < i {
                assert(data@[k] == before[k]);
            }
        }
        i += 1;
    }
    Frame::Request { seq, dims_a, dims_b, data }
}

/// Request number `i` of a run. Its number on the wire is the low byte of `i`.
pub fn nth_request(rows_a: u8, cols_a: u8, cols_b: u8, i: u32) -> (r: Frame)
    ensures
        is_request(r@, rows_a, cols_a, cols_b, (i % 0x100) as u8, i),
{
    build_request(rows_a, cols_a, cols_b, (i % 0x100) as u8, i)
}

/// A request that was built is answered with a product of the right shape, never refused.
pub proof fn lemma_request_is_accepted(
    f: FrameModel,
    rows_a: u8,
    cols_a: u8,
    cols_b: u8,
    number: u8,
    seed: u32,
)
    requires
        is_request(f, rows_a, cols_a, cols_b, number, seed),
    ensures
        compute::refusal(f) is None,
        compute::product_dims(f) == (MatrixDims { rows: rows_a, cols: cols_b }),
{
}

/// The far end reads a request as it was built. (One whose second matrix is of shape zero by
/// zero has the bytes of a result, and one that is too long is not accepted: both are left
/// out.)
pub proof fn lemma_request_is_read(
    f: FrameModel,
    rows_a: u8,
    cols_a: u8,
    cols_b: u8,
    number: u8,
    seed: u32,
)
    requires
        is_request(f, rows_a, cols_a, cols_b, number, seed),
        !(cols_a == 0 && cols_b == 0),
        protocol::payload_of(f).len() <= protocol::MAX_PAYLOAD_LEN,
    ensures
        reader_laws::drain(
            ReaderModel {
                state: frame_reader::ReadState::Syncing,
                buffer: protocol::wire_of(f),
            },
        ).0 == seq![Outcome::Parsed(f)],
{
    let frames = seq![f];
    assert(frames.skip(1) =~= Seq::<FrameModel>::empty());
    reader_laws::lemma_stream_is_read(frames);
    reveal_with_fuel(reader_laws::stream_of, 2);
    assert(reader_laws::stream_of(frames) =~= protocol::wire_of(f));
    assert(frames.map_values(|g: FrameModel| Outcome::Parsed(g)) =~= seq![Outcome::Parsed(f)]);
}

/// The answers that have come in.
#[verifier::ext_equal]
pub struct CollectorModel {
    pub responses: Seq<Option<FrameModel>>,
    pub received: nat,
}

/// What came of a frame.
#[verifier::ext_equal]
pub enum ReceivedModel {
    /// It is the answer to a request, and the `count`th frame that counts.
    Stored { number: nat, count: nat },
    /// It is no result; it is shown at once and counts.
    Shown(FrameModel),
    /// Its request was answered before or never made; it is dropped.
    Repeated { number: nat },
    /// The bytes were no frame.
    Fault(Outcome),
}

impl CollectorModel {
    pub open spec fn inv(self) -> bool {
        self.received <= self.responses.len()
    }

    /// The collector after a frame.
    pub open spec fn accept(self, f: FrameModel) -> CollectorModel {
        match f {
            FrameModel::Result { seq, .. } => if seq < self.responses.len()
                && self.responses[seq as int] is None {
                CollectorModel {
                    responses: self.responses.update(seq as int, Some(f)),
                    received: self.received + 1,
                }
            } else {
                self
            },
            _ => CollectorModel { received: self.received + 1, ..self },
        }
    }

    /// What comes of a frame.
    pub open spec fn verdict(self, f: FrameModel) -> ReceivedModel {
        match f {
            FrameModel::Result { seq, .. } => if seq < self.responses.len()
                && self.responses[seq as int] is None {
                ReceivedModel::Stored { number: seq as nat, count: self.received + 1 }
            } else {
                ReceivedModel::Repeated { number: seq as nat }
            },
            _ => ReceivedModel::Shown(f),
        }
    }
}

/// What a collector makes of the frames that a reader holds: what came of each, and the
/// collector and the reader when enough has come in or more bytes are needed.
pub open spec fn collect(c: CollectorModel, m: ReaderModel) -> (
    Seq<ReceivedModel>,
    CollectorModel,
    ReaderModel,
)
    decreases m.buffer.len(),
{
    proof {
        reader_laws::lemma_report_consumes(m);
    }
    if c.received >= c.responses.len() {
        (Seq::empty(), c, m)
    } else {
        let (o, next) = frame_reader::advance(m);
        match o {
            None => (Seq::empty(), c, next),
            Some(Outcome::Parsed(f)) => {
                let (rest, last_c, last_m) = collect(c.accept(f), next);
                (seq![c.verdict(f)] + rest, last_c, last_m)
            },
            Some(fault) => {
                let (rest, last_c, last_m) = collect(c, next);
                (seq![ReceivedModel::Fault(fault)] + rest, last_c, last_m)
            },
        }
    }
}

/// What came of a frame.
#[derive(Debug)]
pub enum Received {
    Stored { number: usize, count: usize },
    Shown(Frame),
    Repeated { number: usize },
    Fault(FrameError),
}

/// The report stands for the model.
pub open spec fn is_report(r: Received, m: ReceivedModel) -> bool {
    match r {
        Received::Stored { number, count } => m == (ReceivedModel::Stored {
            number: number as nat,
            count: count as nat,
        }),
        Received::Shown(frame) => m == ReceivedModel::Shown(frame@),
        Received::Repeated { number } => m == (ReceivedModel::Repeated { number: number as nat }),
        Received::Fault(e) => m matches ReceivedModel::Fault(o) && frame_reader::is_outcome(
            Err(e),
            o,
        ),
    }
}

/// Collects the answers to a run of requests by their numbers.
pub struct ResponseCollector {
    responses: Vec<Option<Frame>>,
    received: usize,
}

/// The slots as mathematical values.
pub open spec fn slots_of(responses: Seq<Option<Frame>>) -> Seq<Option<FrameModel>> {
    Seq::new(
        responses.len(),
        |i: int|
            match responses[i] {
                Some(f) => Some(f@),
                None => None,
            },
    )
}

impl View for ResponseCollector {
    type V = CollectorModel;

    closed spec fn view(&self) -> CollectorModel {
        CollectorModel { responses: slots_of(self.responses@), received: self.received as nat }
    }
}

impl ResponseCollector {
    /// A collector for the answers to `total` requests.
    pub fn new(total: usize) -> (r: Self)
        ensures
            r@ == (CollectorModel {
                responses: Seq::new(total as nat, |i: int| None),
                received: 0,
            }),
            r@.inv(),
    {
        let mut responses: Vec<Option<Frame>> = Vec::new();
        let mut i: usize = 0;
        while i < total
            invariant
                i <= total,
                responses@.len() == i,
                forall|k: int| 0 <= k < i ==> responses@[k] is None,
            decreases total - i,
        {
            responses.push(None);
            i += 1;
        }
        let r = ResponseCollector { responses, received: 0 };
        assert(r@.responses =~= Seq::new(total as nat, |i: int| None));
        r
    }

    /// Whether as much has come in as was asked for.
    pub fn complete(&self) -> (r: bool)
        ensures
            r == (self@.received >= self@.responses.len()),
    {
        self.received >= self.responses.len()
    }

    /// The number of requests.
    pub fn total(&self) -> (r: usize)
        ensures
            r == self@.responses.len(),
    {
        self.responses.len()
    }

    /// Takes in one frame.
    pub fn accept(&mut self, frame: Frame) -> (r: Received)
        requires
            old(self)@.received < old(self)@.responses.len(),
        ensures
            final(self)@ == old(self)@.accept(frame@),
            final(self)@.inv(),
            is_report(r, old(self)@.verdict(frame@)),
    {
        assert(self.responses@.len() == self.responses.len());
        let number: usize = match &frame {
            Frame::Result { seq, .. } => *seq as usize,
            _ => {
                self.received = self.received + 1;
                return Received::Shown(frame);
            },
        };
        if number < self.responses.len() && self.responses[number].is_none() {
            self.received = self.received + 1;
            self.responses.set(number, Some(frame));
            assert(self@.responses =~= old(self)@.accept(frame@).responses);
            Received::Stored { number, count: self.received }
        } else {
            Received::Repeated { number }
        }
    }

    /// Takes in the frames that `reader` holds, until enough has come in or more bytes are
    /// needed. Says of each what came of it, in order.
    pub fn collect(&mut self, reader: &mut FrameReader) -> (r: Vec<Received>)
        requires
            old(self)@.inv(),
        ensures
            ({
                let (reports, c, m) = collect(old(self)@, old(reader)@);
                &&& final(self)@ == c
                &&& final(self)@.inv()
                &&& final(reader)@ == m
                &&& r@.len() == reports.len()
                &&& forall|i: int|
                    0 <= i < reports.len() ==> is_report(#[trigger] r@[i], reports[i])
            }),
    {
        let ghost c0 = self@;
        let ghost m0 = reader@;
        let ghost mut done = Seq::<ReceivedModel>::empty();
        let mut reports: Vec<Received> = Vec::new();
        assert(collect(c0, m0).0 =~= done + collect(self@, reader@).0);
        loop
            invariant
                self@.inv(),
                collect(c0, m0).0 == done + collect(self@, reader@).0,
                collect(c0, m0).1 == collect(self@, reader@).1,
                collect(c0, m0).2 == collect(self@, reader@).2,
                reports@.len() == done.len(),
                forall|i: int| 0 <= i < done.len() ==> is_report(#[trigger] reports@[i], done[i]),
            ensures
                self@.inv(),
                collect(c0, m0) == (done, self@, reader@),
                reports@.len() == done.len(),
                forall|i: int| 0 <= i < done.len() ==> is_report(#[trigger] reports@[i], done[i]),
            decreases reader@.buffer.len(),
        {
            let ghost c = self@;
            let ghost m = reader@;
            let ghost none = Seq::<ReceivedModel>::empty();
            proof {
                reader_laws::lemma_report_consumes(m);
                assert(done + none =~= done);
            }
            if self.complete() {
                break;
            }
            match reader.try_advance() {
                None => {
                    break;
                },
                Some(Ok(frame)) => {
                    let ghost f = frame@;
                    let report = self.accept(frame);
                    reports.push(report);
                    proof {
                        let rest = collect(self@, reader@).0;
                        assert(collect(c, m).0 =~= seq![c.verdict(f)] + rest);
                        assert(done + (seq![c.verdict(f)] + rest) =~= done.push(c.verdict(f))
                            + rest);
                        done = done.push(c.verdict(f));
                    }
                },
                Some(Err(e)) => {
                    let ghost o = frame_reader::advance(m).0->0;
                    reports.push(Received::Fault(e));
                    proof {
                        let v = ReceivedModel::Fault(o);
                        let rest = collect(self@, reader@).0;
                        assert(collect(c, m).0 =~= seq![v] + rest);
                        assert(done + (seq![v] + rest) =~= done.push(v) + rest);
                        done = done.push(v);
                    }
                },
            }
        }
        reports
    }

    /// The answer to request `number`, if it came.
    pub fn response(&self, number: usize) -> (r: Option<&Frame>)
        requires
            number < self@.responses.len(),
        ensures
            match r {
                Some(f) => self@.responses[number as int] == Some(f@),
                None => self@.responses[number as int] is None,
            },
    {
        self.responses[number].as_ref()
    }
}

/// The collector after `frames`, from a new one for `total` answers.
pub open spec fn after_frames(total: nat, frames: Seq<FrameModel>) -> CollectorModel
    decreases frames.len(),
{
    if frames.len() == 0 {
        CollectorModel { responses: Seq::new(total, |i: int| None), received: 0 }
    } else {
        after_frames(total, frames.drop_last()).accept(frames.last())
    }
}

/// The first result with number `k` among `frames`.
pub open spec fn first_result(frames: Seq<FrameModel>, k: int) -> Option<FrameModel>
    decreases frames.len(),
{
    if frames.len() == 0 {
        None
    } else {
        match first_result(frames.drop_last(), k) {
            Some(f) => Some(f),
            None => match frames.last() {
                FrameModel::Result { seq, .. } => if seq == k {
                    Some(frames.last())
                } else {
                    None
                },
                _ => None,
            },
        }
    }
}

/// Whatever the order in which the answers come, each stands at its request's number, and a
/// later one never takes the place of the first.
pub proof fn lemma_answers_stand_in_order(total: nat, frames: Seq<FrameModel>)
    ensures
        after_frames(total, frames).responses.len() == total,
        forall|k: int|
            0 <= k < total ==> #[trigger] after_frames(total, frames).responses[k] == first_result(
                frames,
                k,
            ),
    decreases frames.len(),
{
    if frames.len() > 0 {
        lemma_answers_stand_in_order(total, frames.drop_last());
        let before = after_frames(total, frames.drop_last());
        let after = after_frames(total, frames);
        assert forall|k: int| 0 <= k < total implies #[trigger] after.responses[k] == first_result(
            frames,
            k,
        ) by {
            assert(before.responses[k] == first_result(frames.drop_last(), k));
        }
    }
}

/// The slots that are filled.
pub open spec fn filled(responses: Seq<Option<FrameModel>>) -> nat
    decreases responses.len(),
{
    if responses.len() == 0 {
        0
    } else {
        filled(responses.drop_last()) + if responses.last() is Some {
            1nat
        } else {
            0nat
        }
    }
}

/// The frames that are no results.
pub open spec fn others(frames: Seq<FrameModel>) -> nat
    decreases frames.len(),
{
    if frames.len() == 0 {
        0
    } else {
        others(frames.drop_last()) + if frames.last() is Result {
            0nat
        } else {
            1nat
        }
    }
}

proof fn lemma_filling_a_slot(responses: Seq<Option<FrameModel>>, k: int, f: FrameModel)
    requires
        0 <= k < responses.len(),
        responses[k] is None,
    ensures
        filled(responses.update(k, Some(f))) == filled(responses) + 1,
    decreases responses.len(),
{
    let after = responses.update(k, Some(f));
    if k == responses.len() - 1 {
        assert(after.drop_last() =~= responses.drop_last());
    } else {
        lemma_filling_a_slot(responses.drop_last(), k, f);
        assert(after.drop_last() =~= responses.drop_last().update(k, Some(f)));
    }
}

proof fn lemma_none_filled(total: nat)
    ensures
        filled(Seq::new(total, |i: int| None)) == 0,
    decreases total,
{
    if total > 0 {
        let s: Seq<Option<FrameModel>> = Seq::new(total, |i: int| None);
        assert(s.drop_last() =~= Seq::new((total - 1) as nat, |i: int| None));
        lemma_none_filled((total - 1) as nat);
    }
}

/// What counts as received are the answers that stand in their places and the frames that were
/// shown at once: no repeated answer counts.
pub proof fn lemma_received_counts(total: nat, frames: Seq<FrameModel>)
    ensures
        after_frames(total, frames).received == filled(after_frames(total, frames).responses)
            + others(frames),
    decreases frames.len(),
{
    lemma_answers_stand_in_order(total, frames);
    if frames.len() == 0 {
        lemma_none_filled(total);
    } else {
        lemma_received_counts(total, frames.drop_last());
        lemma_answers_stand_in_order(total, frames.drop_last());
        let before = after_frames(total, frames.drop_last());
        match frames.last() {
            FrameModel::Result { seq, .. } => {
                if seq < total && before.responses[seq as int] is None {
                    lemma_filling_a_slot(before.responses, seq as int, frames.last());
                }
            },
            _ => {},
        }
    }
}

proof fn lemma_all_filled(responses: Seq<Option<FrameModel>>)
    ensures
        filled(responses) <= responses.len(),
        filled(responses) == responses.len() ==> forall|k: int|
            0 <= k < responses.len() ==> #[trigger] responses[k] is Some,
    decreases responses.len(),
{
    if responses.len() > 0 {
        lemma_all_filled(responses.drop_last());
        assert forall|k: int|
            0 <= k < responses.len() && filled(responses)
                == responses.len() implies #[trigger] responses[k] is Some by {
            if k < responses.len() - 1 {
                assert(responses.drop_last()[k] is Some);
            }
        }
    }
}

/// A collector that saw nothing but results and is complete holds an answer to every request.
pub proof fn lemma_complete_means_all_answered(total: nat, frames: Seq<FrameModel>)
    requires
        others(frames) == 0,
        after_frames(total, frames).received >= total,
    ensures
        forall|k: int|
            0 <= k < total ==> #[trigger] after_frames(total, frames).responses[k] is Some,
{
    lemma_answers_stand_in_order(total, frames);
    lemma_received_counts(total, frames);
    lemma_all_filled(after_frames(total, frames).responses);
}

/// A frame as it is shown.
#[derive(Debug)]
pub enum Shown {
    /// A matrix, row by row.
    Table { dims: MatrixDims, lines: Vec<Vec<u32>> },
    ErrorCode(u8),
    Unexpected,
}

/// How `frame` is shown: a result as a table, an error by its code.
pub fn print_response(frame: &Frame) -> (r: Shown)
    requires
        frame@ matches FrameModel::Result { dims, data, .. } ==> data.len() >= dims.elements(),
    ensures
        match frame@ {
            FrameModel::Result { dims, data, .. } => {
                &&& r matches Shown::Table { dims: d, lines }
                &&& d == dims
                &&& lines@.len() == dims.rows
                &&& forall|i: int|
                    0 <= i < dims.rows ==> (#[trigger] lines@[i])@ == data.subrange(
                        i * dims.cols,
                        i * dims.cols + dims.cols,
                    )
            },
            FrameModel::Error { code } => r == Shown::ErrorCode(code),
            FrameModel::Request { .. } => r is Unexpected,
        },
{
    match frame {
        Frame::Result { dims, data, .. } => {
            let rows: usize = dims.rows as usize;
            let cols: usize = dims.cols as usize;
            let mut lines: Vec<Vec<u32>> = Vec::new();
            let mut i: usize = 0;
            while i < rows
                invariant
                    i <= rows == dims.rows,
                    cols == dims.cols,
                    data@.len() >= rows * cols,
                    lines@.len() == i,
                    forall|k: int|
                        0 <= k < i ==> (#[trigger] lines@[k])@ == data@.subrange(
                            k * cols,
                            k * cols + cols,
                        ),
                decreases rows - i,
            {
                assert(0 <= i * cols && i * cols + cols <= rows * cols) by (nonlinear_arith)
                    requires
                        0 <= i < rows,
                        0 <= cols,
                ;
                assert(data@.len() == data.len());
                let from = i * cols;
                let line = vstd::slice::slice_subrange(data.as_slice(), from, from + cols);
                let mut copy: Vec<u32> = Vec::new();
                copy.extend_from_slice(line);
                assert(copy@ =~= data@.subrange(i * cols, i * cols + cols));
                lines.push(copy);
                i += 1;
            }
            Shown::Table { dims: *dims, lines }
        },
        Frame::Error { code } => Shown::ErrorCode(*code),
        _ => Shown::Unexpected,
    }
}

/// A request asks for the product of the shapes it was built for: the first matrix has `rows_a`
/// rows and `cols_a` columns, the second `cols_a` rows and `cols_b` columns, and it holds the
/// elements of both.
pub proof fn lemma_request_has_its_shapes(
    f: FrameModel,
    rows_a: u8,
    cols_a: u8,
    cols_b: u8,
    number: u8,
    seed: u32,
)
    requires
        is_request(f, rows_a, cols_a, cols_b, number, seed),
    ensures
        f is Request,
        f->Request_seq == number,
        f->dims_a.rows == rows_a,
        f->dims_a.cols == cols_a,
        f->dims_b.rows == cols_a,
        f->dims_b.cols == cols_b,
        f->Request_data.len() == rows_a * cols_a + cols_a * cols_b,
{
}

/// A seed fixes the elements: two requests of the same shapes from the same seed hold the same
/// ones, and a larger request begins with the elements of a smaller one.
pub proof fn lemma_seed_fixes_elements(a: Seq<u32>, b: Seq<u32>, seed: u32, k: int)
    requires
        are_floats_of(a, seed),
        are_floats_of(b, seed),
        0 <= k < a.len(),
        k < b.len(),
    ensures
        a[k] == b[k],
{
    rng::lemma_unit_float_is_unique(
        a[k],
        b[k],
        rng::fraction(rng::lcg_after(seed.wrapping_add(SEED_OFFSET), (k + 1) as nat)),
    );
}

/// The elements are the low 23 bits of the generator's numbers, one number each, from the one
/// behind the seed plus `0xDEADBEEF` on.
pub proof fn lemma_elements_follow_the_generator(data: Seq<u32>, seed: u32, k: int)
    requires
        are_floats_of(data, seed),
        0 <= k < data.len(),
    ensures
        ({
            let start = ((seed + 0xDEAD_BEEFint) % 0x1_0000_0000) as u32;
            rng::is_unit_float(data[k], rng::lcg_after(start, (k + 1) as nat) % 0x80_0000)
        }),
{
    let start = ((seed + 0xDEAD_BEEFint) % 0x1_0000_0000) as u32;
    assert(seed.wrapping_add(0xDEAD_BEEF) == start);
}

/// What is said of a frame fits what is done with it: an answer that is stored takes the free
/// place of its number and counts, a frame that is no result is shown and counts, and anything
/// else changes nothing.
pub proof fn lemma_verdict_fits(c: CollectorModel, f: FrameModel)
    ensures
        c.verdict(f) is Stored <==> f is Result && f->Result_seq < c.responses.len()
            && c.responses[f->Result_seq as int] is None,
        c.verdict(f) is Shown <==> !(f is Result),
        c.verdict(f) is Repeated <==> c.accept(f) == c && f is Result,
        !(c.verdict(f) is Fault),
        c.verdict(f) matches ReceivedModel::Stored { number, count } ==> {
            &&& number == f->Result_seq
            &&& count == c.received + 1
            &&& c.accept(f).received == count
            &&& c.accept(f).responses[number as int] == Some(f)
            &&& forall|k: int|
                0 <= k < c.responses.len() && k != number ==> #[trigger] c.accept(f).responses[k]
                    == c.responses[k]
        },
        c.verdict(f) matches ReceivedModel::Shown(g) ==> g == f && c.accept(f).received
            == c.received + 1 && c.accept(f).responses == c.responses,
        c.verdict(f) matches ReceivedModel::Repeated { number } ==> number == f->Result_seq,
        c.accept(f).responses.len() == c.responses.len(),
{
}

/// The reports that count.
pub open spec fn counted(reports: Seq<ReceivedModel>) -> nat
    decreases reports.len(),
{
    if reports.len() == 0 {
        0
    } else {
        counted(reports.drop_last()) + if reports.last() is Stored || reports.last() is Shown {
            1nat
        } else {
            0nat
        }
    }
}

proof fn lemma_counted_first(first: ReceivedModel, rest: Seq<ReceivedModel>)
    ensures
        counted(seq![first] + rest) == counted(rest) + if first is Stored || first is Shown {
            1nat
        } else {
            0nat
        },
    decreases rest.len(),
{
    let all = seq![first] + rest;
    if rest.len() == 0 {
        reveal_with_fuel(counted, 2);
        assert(all.drop_last() =~= Seq::<ReceivedModel>::empty());
    } else {
        lemma_counted_first(first, rest.drop_last());
        assert(all.drop_last() =~= seq![first] + rest.drop_last());
    }
}

/// What counts after collecting is what counted before and what the reports say, and once enough
/// has come in nothing more is taken.
pub proof fn lemma_reports_account_for_all(c: CollectorModel, m: ReaderModel)
    ensures
        ({
            let (reports, after, last) = collect(c, m);
            &&& after.received == c.received + counted(reports)
            &&& after.responses.len() == c.responses.len()
            &&& c.received >= c.responses.len() ==> reports.len() == 0 && after == c && last == m
        }),
    decreases m.buffer.len(),
{
    reader_laws::lemma_report_consumes(m);
    if c.received < c.responses.len() {
        let (o, next) = frame_reader::advance(m);
        match o {
            None => {},
            Some(Outcome::Parsed(f)) => {
                lemma_reports_account_for_all(c.accept(f), next);
                lemma_counted_first(c.verdict(f), collect(c.accept(f), next).0);
            },
            Some(fault) => {
                lemma_reports_account_for_all(c, next);
                lemma_counted_first(ReceivedModel::Fault(fault), collect(c, next).0);
            },
        }
    }
}

/// A report says what its model says, field by field.
pub proof fn lemma_report_says_all(r: Received, m: ReceivedModel)
    requires
        is_report(r, m),
    ensures
        r is Stored <==> m is Stored,
        r is Shown <==> m is Shown,
        r is Repeated <==> m is Repeated,
        r is Fault <==> m is Fault,
        r matches Received::Stored { number, count } ==> m == (ReceivedModel::Stored {
            number: number as nat,
            count: count as nat,
        }),
        r matches Received::Shown(frame) ==> m == ReceivedModel::Shown(frame@),
        r matches Received::Repeated { number } ==> m == (ReceivedModel::Repeated {
            number: number as nat,
        }),
{
}

/// What is found first is reported first: a frame with what came of it, a fault as it is; the
/// reports on the rest follow.
pub proof fn lemma_reports_come_in_order(c: CollectorModel, m: ReaderModel)
    requires
        c.received < c.responses.len(),
        frame_reader::advance(m).0 is Some,
    ensures
        ({
            let (o, next) = (frame_reader::advance(m).0->0, frame_reader::advance(m).1);
            let reports = collect(c, m).0;
            &&& reports.len() > 0
            &&& o matches Outcome::Parsed(f) ==> reports[0] == c.verdict(f) && reports.skip(1)
                == collect(c.accept(f), next).0
            &&& !(o is Parsed) ==> reports[0] == ReceivedModel::Fault(o) && reports.skip(1)
                == collect(c, next).0
        }),
{
    reader_laws::lemma_report_consumes(m);
    let (o, next) = (frame_reader::advance(m).0->0, frame_reader::advance(m).1);
    match o {
        Outcome::Parsed(f) => {
            let rest = collect(c.accept(f), next).0;
            assert((seq![c.verdict(f)] + rest).skip(1) =~= rest);
        },
        _ => {
            let rest = collect(c, next).0;
            assert((seq![ReceivedModel::Fault(o)] + rest).skip(1) =~= rest);
        },
    }
}

} // verus!
