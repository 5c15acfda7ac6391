//! The request pipeline: what the sending end does next.
//!
//! All requests go out before anything is read. Then the answers are read until as many frames
//! counted as requests were sent, and last each answer is shown once, in the order of the
//! requests.

use vstd::prelude::*;

use crate::frame_reader;
use crate::frame_reader::{FrameReader, ReaderModel};
use crate::protocol::Frame;
use crate::reader_laws;
use crate::sender;
use crate::sender::{CollectorModel, Received, ReceivedModel, ResponseCollector};

verus! {

/// What the sending end does next.
#[derive(Debug, Clone, Copy, PartialEq, Eq, Structural)]
pub enum SenderStep {
    /// Send the request with this number.
    Send(u32),
    /// Read from the line.
    Receive,
    /// Show the answer to the request with this number, or that it is missing.
    Show(usize),
    /// All is shown: leave.
    Done,
    /// The process is to end: leave.
    Interrupted,
    /// The line failed: leave.
    Failed,
}

/// What the sending end does next, given how far it is. Once all has come in, it is shown even
/// if the process is to end.
pub open spec fn sender_step(
    count: nat,
    sent: nat,
    received: nat,
    shown: nat,
    failed: bool,
    term: bool,
) -> SenderStep {
    if failed {
        SenderStep::Failed
    } else if sent < count {
        if term {
            SenderStep::Interrupted
        } else {
            SenderStep::Send(sent as u32)
        }
    } else if received < count {
        if term {
            SenderStep::Interrupted
        } else {
            SenderStep::Receive
        }
    } else if shown < count {
        SenderStep::Show(shown as usize)
    } else {
        SenderStep::Done
    }
}

/// What came of a step.
#[verifier::ext_equal]
pub enum SenderEvent {
    /// The request is out.
    Sent,
    /// These bytes came.
    Came(Seq<u8>),
    /// The answer was shown.
    Shown,
    /// The line failed.
    Failed,
}

/// How far the sending end is.
#[verifier::ext_equal]
pub struct SenderModel {
    /// The requests to send.
    pub count: nat,
    /// The requests that are out.
    pub sent: nat,
    /// The answers that were shown.
    pub shown: nat,
    pub failed: bool,
    pub collector: CollectorModel,
    pub reader: ReaderModel,
}

impl SenderModel {
    /// A run of `count` requests, none of which is out.
    pub open spec fn start(count: nat) -> SenderModel {
        SenderModel {
            count,
            sent: 0,
            shown: 0,
            failed: false,
            collector: CollectorModel { responses: Seq::new(count, |i: int| None), received: 0 },
            reader: ReaderModel { state: frame_reader::ReadState::Syncing, buffer: Seq::empty() },
        }
    }

    pub open spec fn inv(self) -> bool {
        &&& self.count <= u32::MAX
        &&& self.sent <= self.count
        &&& self.shown <= self.count
        &&& self.collector.inv()
        &&& self.collector.responses.len() == self.count
        &&& self.sent < self.count ==> self.collector.received == 0
        &&& self.shown > 0 ==> self.collector.received == self.count
    }

    /// The next step. `term` says whether the process is to end.
    pub open spec fn step(self, term: bool) -> SenderStep {
        sender_step(self.count, self.sent, self.collector.received, self.shown, self.failed, term)
    }

    /// The event can follow on the step of this run.
    pub open spec fn expects(self, event: SenderEvent) -> bool {
        let step = self.step(false);
        match event {
            SenderEvent::Sent => step is Send,
            SenderEvent::Came(_) => step is Receive,
            SenderEvent::Shown => step is Show,
            SenderEvent::Failed => step is Send || step is Receive,
        }
    }

    /// The collector and the reader after `data`, and what came of each frame in it.
    pub open spec fn taken_in(self, data: Seq<u8>) -> (
        Seq<ReceivedModel>,
        CollectorModel,
        ReaderModel,
    ) {
        if data.len() == 0 {
            (Seq::empty(), self.collector, self.reader)
        } else {
            sender::collect(self.collector, frame_reader::feed(self.reader, data))
        }
    }

    /// The run after the event.
    pub open spec fn after(self, event: SenderEvent) -> SenderModel {
        match event {
            SenderEvent::Sent => SenderModel { sent: self.sent + 1, ..self },
            SenderEvent::Came(data) => {
                let (_, collector, reader) = self.taken_in(data);
                SenderModel { collector, reader, ..self }
            },
            SenderEvent::Shown => SenderModel { shown: self.shown + 1, ..self },
            SenderEvent::Failed => SenderModel { failed: true, ..self },
        }
    }
}

/// Collecting makes no room for other answers than those asked for, and counts no more of them.
proof fn lemma_collect_keeps_total(c: CollectorModel, m: ReaderModel)
    requires
        c.inv(),
    ensures
        sender::collect(c, m).1.responses.len() == c.responses.len(),
        sender::collect(c, m).1.inv(),
    decreases m.buffer.len(),
{
    reader_laws::lemma_report_consumes(m);
    if c.received < c.responses.len() {
        let (o, next) = frame_reader::advance(m);
        match o {
            None => {},
            Some(frame_reader::Outcome::Parsed(f)) => {
                lemma_collect_keeps_total(c.accept(f), next);
            },
            Some(_) => {
                lemma_collect_keeps_total(c, next);
            },
        }
    }
}

/// The invariant outlasts every event.
proof fn lemma_run_stays_valid(s: SenderModel, event: SenderEvent)
    requires
        s.inv(),
        s.expects(event),
    ensures
        s.after(event).inv(),
{
    match event {
        SenderEvent::Came(data) => {
            if data.len() > 0 {
                lemma_collect_keeps_total(s.collector, frame_reader::feed(s.reader, data));
            }
        },
        _ => {},
    }
}

/// A run of requests and their answers.
pub struct SenderRun {
    count: u32,
    sent: u32,
    shown: usize,
    failed: bool,
    collector: ResponseCollector,
    reader: FrameReader,
}

impl View for SenderRun {
    type V = SenderModel;

    closed spec fn view(&self) -> SenderModel {
        SenderModel {
            count: self.count as nat,
            sent: self.sent as nat,
            shown: self.shown as nat,
            failed: self.failed,
            collector: self.collector@,
            reader: self.reader@,
        }
    }
}

impl SenderRun {
    /// A run of `count` requests.
    pub fn new(count: u32) -> (r: Self)
        ensures
            r@ == SenderModel::start(count as nat),
            r@.inv(),
    {
        SenderRun {
            count,
            sent: 0,
            shown: 0,
            failed: false,
            collector: ResponseCollector::new(count as usize),
            reader: FrameReader::new(),
        }
    }

    /// What the sending end does next. `term` says whether the process is to end.
    pub fn next(&self, term: bool) -> (r: SenderStep)
        requires
            self@.inv(),
        ensures
            r == self@.step(term),
    {
        if self.failed {
            return SenderStep::Failed;
        }
        if self.sent < self.count {
            if term {
                return SenderStep::Interrupted;
            }
            return SenderStep::Send(self.sent);
        }
        if !self.collector.complete() {
            if term {
                return SenderStep::Interrupted;
            }
            return SenderStep::Receive;
        }
        if self.shown < self.collector.total() {
            SenderStep::Show(self.shown)
        } else {
            SenderStep::Done
        }
    }

    /// Takes in that the request is out.
    pub fn request_sent(&mut self)
        requires
            old(self)@.inv(),
            old(self)@.expects(SenderEvent::Sent),
        ensures
            final(self)@.inv(),
            final(self)@ == old(self)@.after(SenderEvent::Sent),
    {
        proof {
            lemma_run_stays_valid(self@, SenderEvent::Sent);
        }
        self.sent = self.sent + 1;
    }

    /// Takes in bytes from the line. Says of each frame in them what came of it, in order.
    pub fn bytes_came(&mut self, data: &[u8]) -> (r: Vec<Received>)
        requires
            old(self)@.inv(),
            old(self)@.expects(SenderEvent::Came(data@)),
        ensures
            final(self)@.inv(),
            final(self)@ == old(self)@.after(SenderEvent::Came(data@)),
            ({
                let reports = old(self)@.taken_in(data@).0;
                &&& r@.len() == reports.len()
                &&& forall|i: int|
                    0 <= i < reports.len() ==> sender::is_report(#[trigger] r@[i], reports[i])
            }),
    {
        proof {
            lemma_run_stays_valid(self@, SenderEvent::Came(data@));
        }
        if data.len() == 0 {
            return Vec::new();
        }
        self.reader.feed_data(data);
        self.collector.collect(&mut self.reader)
    }

    /// Takes in that the answer was shown.
    pub fn answer_shown(&mut self)
        requires
            old(self)@.inv(),
            old(self)@.expects(SenderEvent::Shown),
        ensures
            final(self)@.inv(),
            final(self)@ == old(self)@.after(SenderEvent::Shown),
    {
        proof {
            lemma_run_stays_valid(self@, SenderEvent::Shown);
        }
        self.shown = self.shown + 1;
    }

    /// Takes in that the line failed.
    pub fn line_failed(&mut self)
        requires
            old(self)@.inv(),
            old(self)@.expects(SenderEvent::Failed),
        ensures
            final(self)@.inv(),
            final(self)@ == old(self)@.after(SenderEvent::Failed),
    {
        self.failed = true;
    }

    /// The answer to request `number`, if it came.
    pub fn response(&self, number: usize) -> (r: Option<&Frame>)
        requires
            self@.inv(),
            number < self@.count,
        ensures
            match r {
                Some(f) => self@.collector.responses[number as int] == Some(f@),
                None => self@.collector.responses[number as int] is None,
            },
    {
        self.collector.response(number)
    }
}

/// The run of `count` requests after the events.
pub open spec fn run_after(count: nat, events: Seq<SenderEvent>) -> SenderModel
    decreases events.len(),
{
    if events.len() == 0 {
        SenderModel::start(count)
    } else {
        run_after(count, events.drop_last()).after(events.last())
    }
}

/// The events can follow on each other in a run of `count` requests.
pub open spec fn is_history(count: nat, events: Seq<SenderEvent>) -> bool
    decreases events.len(),
{
    events.len() > 0 ==> {
        &&& is_history(count, events.drop_last())
        &&& run_after(count, events.drop_last()).expects(events.last())
    }
}

/// The numbers of the requests that went out, in their order.
pub open spec fn numbers_sent(count: nat, events: Seq<SenderEvent>) -> Seq<u32>
    decreases events.len(),
{
    if events.len() == 0 {
        Seq::empty()
    } else {
        let before = numbers_sent(count, events.drop_last());
        match (events.last(), run_after(count, events.drop_last()).step(false)) {
            (SenderEvent::Sent, SenderStep::Send(number)) => before.push(number),
            _ => before,
        }
    }
}

/// The numbers of the answers that were shown, in their order.
pub open spec fn numbers_shown(count: nat, events: Seq<SenderEvent>) -> Seq<usize>
    decreases events.len(),
{
    if events.len() == 0 {
        Seq::empty()
    } else {
        let before = numbers_shown(count, events.drop_last());
        match (events.last(), run_after(count, events.drop_last()).step(false)) {
            (SenderEvent::Shown, SenderStep::Show(number)) => before.push(number),
            _ => before,
        }
    }
}

/// The place of an event in a run: sending, reading, showing; a failure ends the run.
pub open spec fn phase(event: SenderEvent) -> int {
    match event {
        SenderEvent::Sent => 0,
        SenderEvent::Came(_) => 1,
        SenderEvent::Shown => 2,
        SenderEvent::Failed => 3,
    }
}

/// Something is read only when all requests are out, and an answer is shown only when enough
/// has come in.
pub proof fn lemma_steps_wait_for_each_other(s: SenderModel, term: bool)
    requires
        s.inv(),
    ensures
        s.step(term) is Receive ==> s.sent == s.count,
        s.step(term) is Show || s.step(term) is Done ==> s.sent == s.count
            && s.collector.received == s.count,
        s.step(term) is Done ==> s.shown == s.count,
{
}

/// The requests go out one by one from the first on, the answers are shown one by one from the
/// first on, and neither mixes with the reading between them. A run that is done has sent every
/// request and shown every answer once.
pub proof fn lemma_pipeline_keeps_order(count: nat, events: Seq<SenderEvent>)
    requires
        count <= u32::MAX,
        is_history(count, events),
    ensures
        ({
            let s = run_after(count, events);
            &&& s.inv()
            &&& s.count == count
            &&& numbers_sent(count, events) == Seq::new(s.sent, |i: int| i as u32)
            &&& numbers_shown(count, events) == Seq::new(s.shown, |i: int| i as usize)
            &&& forall|i: int, j: int|
                0 <= i <= j < events.len() ==> phase(#[trigger] events[i]) <= phase(
                    #[trigger] events[j],
                )
            &&& forall|i: int|
                0 <= i < events.len() && (#[trigger] events[i] is Came || events[i] is Shown)
                    ==> s.sent == count
            &&& forall|i: int|
                0 <= i < events.len() && #[trigger] events[i] is Shown
                    ==> s.collector.received == count
            &&& forall|i: int|
                0 <= i < events.len() && #[trigger] events[i] is Failed ==> s.failed
            &&& s.step(false) is Done ==> s.sent == count && s.shown == count
        }),
    decreases events.len(),
{
    let s = run_after(count, events);
    if events.len() > 0 {
        let earlier = events.drop_last();
        let last = events.len() - 1;
        lemma_pipeline_keeps_order(count, earlier);
        let before = run_after(count, earlier);
        lemma_run_stays_valid(before, events.last());
        assert forall|i: int| 0 <= i <= last implies phase(#[trigger] events[i]) <= phase(
            events[last],
        ) by {
            if i < last {
                assert(earlier[i] == events[i]);
            }
        }
        assert forall|i: int, j: int| 0 <= i <= j < events.len() implies phase(
            #[trigger] events[i],
        ) <= phase(#[trigger] events[j]) by {
            if j < last {
                assert(earlier[i] == events[i] && earlier[j] == events[j]);
            }
        }
        assert forall|i: int|
            0 <= i < events.len() && (#[trigger] events[i] is Came
                || events[i] is Shown) implies s.sent == count by {
            if i < last {
                assert(earlier[i] == events[i]);
            }
        }
        assert forall|i: int|
            0 <= i < events.len() && #[trigger] events[i] is Shown implies s.collector.received
            == count by {
            if i < last {
                assert(earlier[i] == events[i]);
            }
        }
        assert forall|i: int|
            0 <= i < events.len() && #[trigger] events[i] is Failed implies s.failed by {
            if i < last {
                assert(earlier[i] == events[i]);
            }
        }
    }
    assert(numbers_sent(count, events) =~= Seq::new(s.sent, |i: int| i as u32));
    assert(numbers_shown(count, events) =~= Seq::new(s.shown, |i: int| i as usize));
}

/// What the sending end does next, and when: it leaves at once if the line failed; it sends as
/// long as requests are left, reads as long as frames are missing, shows as long as answers are
/// left, and is done then and only then. A process that is to end breaks off sending and reading,
/// and nothing else does.
pub proof fn lemma_each_step_has_its_time(s: SenderModel, term: bool)
    requires
        s.inv(),
    ensures
        s.step(term) is Failed <==> s.failed,
        s.step(term) is Interrupted <==> !s.failed && term && (s.sent < s.count
            || s.collector.received < s.count),
        s.step(term) is Send <==> !s.failed && !term && s.sent < s.count,
        s.step(term) is Receive <==> !s.failed && !term && s.sent == s.count && s.collector.received
            < s.count,
        s.step(term) is Show <==> !s.failed && s.sent == s.count && s.collector.received == s.count
            && s.shown < s.count,
        s.step(term) is Done <==> !s.failed && s.sent == s.count && s.collector.received == s.count
            && s.shown == s.count,
        s.step(term) matches SenderStep::Send(i) ==> i == s.sent,
        s.step(term) matches SenderStep::Show(k) ==> k == s.shown,
{
}

/// A run starts with nothing sent, read or shown, and each event moves it on by what happened and
/// by nothing else.
pub proof fn lemma_events_move_the_run_on(s: SenderModel, data: Seq<u8>, count: nat)
    ensures
        ({
            let z = SenderModel::start(count);
            &&& z.count == count && z.sent == 0 && z.shown == 0 && !z.failed
            &&& z.collector.received == 0 && z.collector.responses.len() == count
            &&& z.reader.buffer.len() == 0
        }),
        s.after(SenderEvent::Sent) == (SenderModel { sent: s.sent + 1, ..s }),
        s.after(SenderEvent::Shown) == (SenderModel { shown: s.shown + 1, ..s }),
        s.after(SenderEvent::Failed) == (SenderModel { failed: true, ..s }),
        s.after(SenderEvent::Came(Seq::empty())) == s,
        ({
            let t = s.after(SenderEvent::Came(data));
            t.count == s.count && t.sent == s.sent && t.shown == s.shown && t.failed == s.failed
        }),
{
}

/// What is told of bytes that came is what the collector makes of the frames in them, and each
/// frame that counts is told of once.
pub proof fn lemma_all_that_came_is_told(s: SenderModel, data: Seq<u8>)
    requires
        data.len() > 0,
    ensures
        s.taken_in(data) == sender::collect(s.collector, frame_reader::feed(s.reader, data)),
        s.after(SenderEvent::Came(data)).collector.received == s.collector.received
            + sender::counted(s.taken_in(data).0),
{
    sender::lemma_reports_account_for_all(s.collector, frame_reader::feed(s.reader, data));
}

} // verus!
