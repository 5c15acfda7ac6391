//! What the request pipeline shows of a whole run.

use vstd::prelude::*;

use crate::frame_reader;
use crate::frame_reader::{Outcome, ReaderModel};
use crate::pipeline;
use crate::pipeline::{SenderEvent, SenderModel};
use crate::protocol::FrameModel;
use crate::reader_laws;
use crate::sender;
use crate::sender::CollectorModel;

verus! {

/// The frames among what a reader found.
pub open spec fn frames_of(found: Seq<Outcome>) -> Seq<FrameModel>
    decreases found.len(),
{
    if found.len() == 0 {
        Seq::empty()
    } else {
        let before = frames_of(found.drop_last());
        match found.last() {
            Outcome::Parsed(f) => before.push(f),
            _ => before,
        }
    }
}

proof fn lemma_frames_of_both(a: Seq<Outcome>, b: Seq<Outcome>)
    ensures
        frames_of(a + b) == frames_of(a) + frames_of(b),
    decreases b.len(),
{
    if b.len() == 0 {
        assert(a + b =~= a);
    } else {
        lemma_frames_of_both(a, b.drop_last());
        assert((a + b).drop_last() =~= a + b.drop_last());
    }
    assert(frames_of(a + b) =~= frames_of(a) + frames_of(b));
}

proof fn lemma_frames_of_one(o: Outcome)
    ensures
        frames_of(seq![o]) == (match o {
            Outcome::Parsed(f) => seq![f],
            _ => Seq::empty(),
        }),
{
    reveal_with_fuel(frames_of, 2);
    assert(seq![o].drop_last() =~= Seq::<Outcome>::empty());
    assert(frames_of(seq![o]) =~= (match o {
        Outcome::Parsed(f) => seq![f],
        _ => Seq::empty(),
    }));
}

/// The frames that a collector takes from a reader.
pub open spec fn frames_taken(c: CollectorModel, m: ReaderModel) -> Seq<FrameModel>
    decreases m.buffer.len(),
{
    proof {
        reader_laws::lemma_report_consumes(m);
    }
    if c.received >= c.responses.len() {
        Seq::empty()
    } else {
        let (o, next) = frame_reader::advance(m);
        match o {
            None => Seq::empty(),
            Some(Outcome::Parsed(f)) => seq![f] + frames_taken(c.accept(f), next),
            Some(_) => frames_taken(c, next),
        }
    }
}

/// A collector takes the first of the frames that the reader finds, and all of them if it needs
/// more than there are.
proof fn lemma_collect_takes(total: nat, earlier: Seq<FrameModel>, m: ReaderModel)
    requires
        sender::after_frames(total, earlier).responses.len() == total,
    ensures
        ({
            let c = sender::after_frames(total, earlier);
            let taken = frames_taken(c, m);
            let found = frames_of(reader_laws::drain(m).0);
            let (_, last_c, last_m) = sender::collect(c, m);
            &&& last_c == sender::after_frames(total, earlier + taken)
            &&& taken.is_prefix_of(found)
            &&& last_c.received < total ==> taken == found && last_m == reader_laws::drain(m).1
        }),
    decreases m.buffer.len(),
{
    let c = sender::after_frames(total, earlier);
    let (o, next) = frame_reader::advance(m);
    reader_laws::lemma_report_consumes(m);
    let found = frames_of(reader_laws::drain(m).0);
    if c.received >= total {
        assert(earlier + frames_taken(c, m) =~= earlier);
    } else {
        match o {
            None => {
                assert(earlier + frames_taken(c, m) =~= earlier);
                assert(found =~= Seq::<FrameModel>::empty());
            },
            Some(Outcome::Parsed(f)) => {
                let more = earlier.push(f);
                assert(more.drop_last() =~= earlier);
                assert(sender::after_frames(total, more) == c.accept(f));
                lemma_collect_takes(total, more, next);
                let rest = frames_taken(c.accept(f), next);
                assert(earlier + (seq![f] + rest) =~= more + rest);
                let behind = reader_laws::drain(next).0;
                lemma_frames_of_both(seq![Outcome::Parsed(f)], behind);
                lemma_frames_of_one(Outcome::Parsed(f));
                assert(found == seq![f] + frames_of(behind));
                assert(frames_taken(c, m) =~= found.take(frames_taken(c, m).len() as int));
            },
            Some(fault) => {
                lemma_collect_takes(total, earlier, next);
                let behind = reader_laws::drain(next).0;
                lemma_frames_of_both(seq![fault], behind);
                lemma_frames_of_one(fault);
                assert(found =~= frames_of(behind));
            },
        }
    }
}

/// All bytes that came.
pub open spec fn bytes_of(events: Seq<SenderEvent>) -> Seq<u8>
    decreases events.len(),
{
    if events.len() == 0 {
        Seq::empty()
    } else {
        let before = bytes_of(events.drop_last());
        match events.last() {
            SenderEvent::Came(data) => before + data,
            _ => before,
        }
    }
}

/// All frames that were taken in a run of `count` requests.
pub open spec fn frames_of_run(count: nat, events: Seq<SenderEvent>) -> Seq<FrameModel>
    decreases events.len(),
{
    if events.len() == 0 {
        Seq::empty()
    } else {
        let before = frames_of_run(count, events.drop_last());
        let s = pipeline::run_after(count, events.drop_last());
        match events.last() {
            SenderEvent::Came(data) => if data.len() == 0 {
                before
            } else {
                before + frames_taken(s.collector, frame_reader::feed(s.reader, data))
            },
            _ => before,
        }
    }
}

/// What a new reader finds in `data`, and the reader then.
pub open spec fn read_at_once(data: Seq<u8>) -> (Seq<Outcome>, ReaderModel) {
    reader_laws::drain(frame_reader::feed(SenderModel::start(0).reader, data))
}

/// What holds after every event.
proof fn lemma_run_takes_frames(count: nat, events: Seq<SenderEvent>)
    requires
        count <= u32::MAX,
        pipeline::is_history(count, events),
    ensures
        ({
            let s = pipeline::run_after(count, events);
            let frames = frames_of_run(count, events);
            let (found, reader) = read_at_once(bytes_of(events));
            &&& s.collector == sender::after_frames(count, frames)
            &&& frames.is_prefix_of(frames_of(found))
            &&& s.collector.received < count ==> frames == frames_of(found) && s.reader == reader
        }),
    decreases events.len(),
{
    let fresh = SenderModel::start(0).reader;
    let s = pipeline::run_after(count, events);
    let frames = frames_of_run(count, events);
    if events.len() == 0 {
        assert(frame_reader::feed(fresh, Seq::empty()) =~= fresh);
        assert(frame_reader::skip_to_head(fresh.buffer) =~= fresh.buffer);
        assert(frames =~= frames_of(read_at_once(bytes_of(events)).0));
    } else {
        let earlier = events.drop_last();
        lemma_run_takes_frames(count, earlier);
        pipeline::lemma_pipeline_keeps_order(count, earlier);
        let before = pipeline::run_after(count, earlier);
        let taken = frames_of_run(count, earlier);
        let a = bytes_of(earlier);
        match events.last() {
            SenderEvent::Came(data) => {
                if data.len() == 0 {
                    assert(bytes_of(events) =~= a);
                } else {
                    assert(frame_reader::skip_to_head(fresh.buffer) =~= fresh.buffer);
                    reader_laws::lemma_pieces_do_not_matter(fresh, a, data);
                    let m = frame_reader::feed(before.reader, data);
                    lemma_collect_takes(count, taken, m);
                    let first = read_at_once(a).0;
                    let second = reader_laws::drain(m).0;
                    lemma_frames_of_both(first, second);
                    let all = frames_of(first) + frames_of(second);
                    assert(frames =~= all.take(frames.len() as int));
                }
            },
            _ => {},
        }
    }
}

/// What is shown for a request is the first result with its number among the frames that came,
/// in whatever order and pieces they did. The frames that count are the first ones in the stream
/// of all bytes that came: all of them, until as many counted as requests were sent.
pub proof fn lemma_first_results_are_shown(count: nat, events: Seq<SenderEvent>)
    requires
        count <= u32::MAX,
        pipeline::is_history(count, events),
    ensures
        ({
            let s = pipeline::run_after(count, events);
            let frames = frames_of_run(count, events);
            let found = frames_of(read_at_once(bytes_of(events)).0);
            &&& s.collector == sender::after_frames(count, frames)
            &&& forall|k: int|
                0 <= k < count ==> #[trigger] s.collector.responses[k] == sender::first_result(
                    frames,
                    k,
                )
            &&& frames.is_prefix_of(found)
            &&& s.collector.received < count ==> frames == found
        }),
{
    lemma_run_takes_frames(count, events);
    let frames = frames_of_run(count, events);
    sender::lemma_answers_stand_in_order(count, frames);
    assert forall|k: int| 0 <= k < count implies #[trigger] pipeline::run_after(
        count,
        events,
    ).collector.responses[k] == sender::first_result(frames, k) by {
        assert(sender::after_frames(count, frames).responses[k] == sender::first_result(frames, k));
    }
}

} // verus!
