//! What holds of a sender and a receiver that share one channel.

use vstd::prelude::*;

use crate::bytes;
use crate::ring;
use crate::shm::{ReadEvent, ReadStep, Receiver, Sender, WriteEvent, WriteSession, WriteStep};

verus! {

/// A sender, a receiver and the ring between them. A flag says of either side that the other's
/// signal reached its token and has not been consumed.
pub struct Link {
    pub used: nat,
    pub writer: WriteSession,
    pub reader: ReadStep,
    pub writer_signalled: bool,
    pub reader_signalled: bool,
}

/// One side's next doing.
pub enum Move {
    /// The sender begins another message.
    Begin(usize),
    /// The sender does its step.
    Write,
    /// The receiver begins another read.
    Again,
    /// The receiver does its step, with room for this many bytes.
    Read(nat),
}

impl Link {
    /// A fresh channel: nothing in it, nobody waiting.
    pub open spec fn fresh() -> Link {
        Link {
            used: 0,
            writer: WriteSession { len: 0, written: 0, step: WriteStep::Done },
            reader: ReadStep::Copy,
            writer_signalled: false,
            reader_signalled: false,
        }
    }

    /// The link after the sender's step. A wait that no signal ends stays.
    pub open spec fn after_write(self) -> Link {
        match self.writer.step {
            WriteStep::Copy => {
                let n = bytes::least(
                    (ring::RING_CAPACITY - self.used) as nat,
                    (self.writer.len - self.writer.written) as nat,
                );
                Link {
                    used: self.used + n,
                    writer: self.writer.next(WriteEvent::Copied(n as usize)),
                    ..self
                }
            },
            WriteStep::NotifyFull | WriteStep::NotifyLast => Link {
                writer: self.writer.next(WriteEvent::Sent),
                reader_signalled: true,
                ..self
            },
            WriteStep::Wait => if self.writer_signalled {
                Link {
                    writer: self.writer.next(WriteEvent::Woken),
                    writer_signalled: false,
                    ..self
                }
            } else {
                self
            },
            WriteStep::Done => self,
        }
    }

    /// The link after the receiver's step. A wait that no signal ends stays.
    pub open spec fn after_read(self, room: nat) -> Link {
        match self.reader {
            ReadStep::Copy => {
                let n = bytes::least(self.used, room);
                Link {
                    used: (self.used - n) as nat,
                    reader: self.reader.next(ReadEvent::Copied(n as usize)),
                    ..self
                }
            },
            ReadStep::NotifyEmpty => Link {
                reader: self.reader.next(ReadEvent::Sent),
                writer_signalled: true,
                ..self
            },
            ReadStep::Wait => if self.reader_signalled {
                Link {
                    reader: self.reader.next(ReadEvent::Woken),
                    reader_signalled: false,
                    ..self
                }
            } else {
                self
            },
            ReadStep::Done(_) => self,
        }
    }

    pub open spec fn after(self, m: Move) -> Link {
        match m {
            Move::Begin(len) => if self.writer.step is Done {
                Link { writer: WriteSession::start(len), ..self }
            } else {
                self
            },
            Move::Write => self.after_write(),
            Move::Again => if self.reader is Done {
                Link { reader: ReadStep::Copy, ..self }
            } else {
                self
            },
            // A read has room for at least one byte.
            Move::Read(room) => if room > 0 {
                self.after_read(room)
            } else {
                self
            },
        }
    }

    /// The sender waits and no signal will end it by itself.
    pub open spec fn writer_asleep(self) -> bool {
        self.writer.step is Wait && !self.writer_signalled
    }

    /// The receiver waits and no signal will end it by itself.
    pub open spec fn reader_asleep(self) -> bool {
        self.reader is Wait && !self.reader_signalled
    }

    /// The sender found the ring full and has not looked since.
    pub open spec fn writer_gave_up(self) -> bool {
        self.writer.step is NotifyFull || self.writer.step is Wait
    }

    /// The receiver found the ring empty and has not looked since.
    pub open spec fn reader_gave_up(self) -> bool {
        self.reader is NotifyEmpty || self.reader is Wait
    }

    /// What every move keeps.
    pub open spec fn inv(self) -> bool {
        &&& self.used <= ring::RING_CAPACITY
        &&& self.writer.inv()
        // Whoever gave up last decides what is in the ring.
        &&& self.writer_gave_up() && self.reader_gave_up() ==> self.used == 0 || self.used
            == ring::RING_CAPACITY
        // The receiver gave up last, and signalled before it waited.
        &&& self.writer_gave_up() && self.reader is Wait && self.used == 0 ==> self.writer_signalled
        // The sender gave up last, and signalled before it waited.
        &&& self.writer.step is Wait && self.reader_gave_up() && self.used
            == ring::RING_CAPACITY ==> self.reader_signalled
        // A message that is in was signalled after the receiver gave up.
        &&& self.writer.step is Done && self.reader_gave_up() && self.used > 0
            ==> self.reader_signalled
    }
}

/// The link after `moves` from a fresh one.
pub open spec fn run(moves: Seq<Move>) -> Link
    decreases moves.len(),
{
    if moves.len() == 0 {
        Link::fresh()
    } else {
        run(moves.drop_last()).after(moves.last())
    }
}

proof fn lemma_move_keeps_inv(link: Link, m: Move)
    requires
        link.inv(),
    ensures
        link.after(m).inv(),
{
}

proof fn lemma_run_keeps_inv(moves: Seq<Move>)
    ensures
        run(moves).inv(),
    decreases moves.len(),
{
    if moves.len() > 0 {
        lemma_run_keeps_inv(moves.drop_last());
        lemma_move_keeps_inv(run(moves.drop_last()), moves.last());
    }
}

/// Full and empty are signalled before either side waits, so the two never wait for each other:
/// whatever the order of their steps, not both are asleep.
pub proof fn lemma_no_circular_wait(moves: Seq<Move>)
    ensures
        !(run(moves).writer_asleep() && run(moves).reader_asleep()),
{
    lemma_run_keeps_inv(moves);
}

/// The last bytes of a message arrive: once it is in, a receiver with bytes left to read is not
/// asleep.
pub proof fn lemma_last_bytes_arrive(moves: Seq<Move>)
    requires
        run(moves).writer.step is Done,
        run(moves).used > 0,
    ensures
        !run(moves).reader_asleep(),
{
    lemma_run_keeps_inv(moves);
}

/// A receiver that waits on an empty ring has told a sender that waits for room.
pub proof fn lemma_drained_ring_frees_sender(moves: Seq<Move>)
    requires
        run(moves).reader is Wait,
        run(moves).used == 0,
    ensures
        !run(moves).writer_asleep(),
{
    lemma_run_keeps_inv(moves);
}

/// The sender stops copying only at a full ring or at the end of its message: as long as there
/// is room it neither signals nor waits.
pub proof fn lemma_sender_stops_only_when_full(link: Link)
    requires
        link.inv(),
        link.writer.step is Copy,
    ensures
        link.after_write().writer.step is NotifyFull <==> link.used == ring::RING_CAPACITY,
        link.after_write().writer.step is NotifyLast <==> (link.used < ring::RING_CAPACITY
            && link.after_write().writer.written == link.writer.len),
{
}

/// The receiver signals only at an empty ring: as long as there are bytes it takes them without
/// a word.
pub proof fn lemma_receiver_stops_only_when_empty(link: Link, room: nat)
    requires
        link.inv(),
        link.reader is Copy,
        0 < room,
    ensures
        link.after_read(room).reader is NotifyEmpty <==> link.used == 0,
        link.used > 0 ==> link.after_read(room).reader is Done,
{
}

/// The session of a message of `len` bytes after the events.
pub open spec fn message_after(len: usize, events: Seq<WriteEvent>) -> WriteSession
    decreases events.len(),
{
    if events.len() == 0 {
        WriteSession::start(len)
    } else {
        message_after(len, events.drop_last()).next(events.last())
    }
}

/// The events can follow on each other in the session of a message of `len` bytes.
pub open spec fn message_history(len: usize, events: Seq<WriteEvent>) -> bool
    decreases events.len(),
{
    events.len() > 0 ==> {
        &&& message_history(len, events.drop_last())
        &&& message_after(len, events.drop_last()).expects(events.last())
    }
}

/// The sending end after the events, as `Sender::write` counts them.
pub open spec fn sender_after<S, T>(sender: Sender<S, T>, events: Seq<WriteEvent>) -> Sender<S, T>
    decreases events.len(),
{
    if events.len() == 0 {
        sender
    } else {
        sender_after(sender, events.drop_last()).counted(events.last())
    }
}

/// A message costs one signal for every time its sender slept, and one more when it is in: the
/// number of signals follows the ring, not the pieces that were copied. A sender that still
/// copies has sent as many signals as it slept.
pub proof fn lemma_message_signals_follow_sleeps<S, T>(
    sender: Sender<S, T>,
    len: usize,
    events: Seq<WriteEvent>,
)
    requires
        message_history(len, events),
        sender.sent_interrupts + events.len() <= u64::MAX,
        sender.sleeps + events.len() <= u64::MAX,
    ensures
        ({
            let session = message_after(len, events);
            let after = sender_after(sender, events);
            let sent = after.sent_interrupts - sender.sent_interrupts;
            let slept = after.sleeps - sender.sleeps;
            &&& session.inv()
            &&& 0 <= slept <= events.len() && sent <= events.len()
            &&& sent == slept + if session.step is Wait || session.step is Done {
                1int
            } else {
                0
            }
            &&& session.step is Done ==> sent == slept + 1
        }),
    decreases events.len(),
{
    if events.len() > 0 {
        lemma_message_signals_follow_sleeps(sender, len, events.drop_last());
    }
}

/// The read after the events.
pub open spec fn read_after(events: Seq<ReadEvent>) -> ReadStep
    decreases events.len(),
{
    if events.len() == 0 {
        ReadStep::Copy
    } else {
        read_after(events.drop_last()).next(events.last())
    }
}

/// The events can follow on each other in a read.
pub open spec fn read_history(events: Seq<ReadEvent>) -> bool
    decreases events.len(),
{
    events.len() > 0 ==> {
        &&& read_history(events.drop_last())
        &&& read_after(events.drop_last()).expects(events.last())
    }
}

/// The receiving end after the events, as `Receiver::read` counts them.
pub open spec fn receiver_after<S, T>(receiver: Receiver<S, T>, events: Seq<ReadEvent>) -> Receiver<
    S,
    T,
>
    decreases events.len(),
{
    if events.len() == 0 {
        receiver
    } else {
        receiver_after(receiver, events.drop_last()).counted(events.last())
    }
}

/// A read costs one signal for every time its receiver slept.
pub proof fn lemma_read_signals_follow_sleeps<S, T>(
    receiver: Receiver<S, T>,
    events: Seq<ReadEvent>,
)
    requires
        read_history(events),
        receiver.sent_interrupts + events.len() <= u64::MAX,
        receiver.sleeps + events.len() <= u64::MAX,
    ensures
        ({
            let step = read_after(events);
            let after = receiver_after(receiver, events);
            let sent = after.sent_interrupts - receiver.sent_interrupts;
            let slept = after.sleeps - receiver.sleeps;
            &&& 0 <= slept <= events.len() && sent <= events.len()
            &&& sent == slept + if step is Wait {
                1int
            } else {
                0
            }
            &&& step is Done ==> sent == slept
        }),
    decreases events.len(),
{
    if events.len() > 0 {
        lemma_read_signals_follow_sleeps(receiver, events.drop_last());
    }
}

/// The ring is never overfilled.
pub proof fn lemma_link_respects_capacity(moves: Seq<Move>)
    ensures
        run(moves).used <= ring::RING_CAPACITY,
{
    lemma_run_keeps_inv(moves);
}

/// A message starts with none of its bytes in, and copies unless there is nothing to copy.
pub proof fn lemma_message_starts_empty(len: usize)
    ensures
        WriteSession::start(len).len == len,
        WriteSession::start(len).written == 0,
        WriteSession::start(len).step is Copy <==> len > 0,
        WriteSession::start(len).step is NotifyLast <==> len == 0,
{
}

/// A sender goes on copying as long as bytes go in, says so when none do and when the last one
/// did, waits only after it said that the ring is full, and copies again when it is woken. No
/// byte is counted twice or left out.
pub proof fn lemma_sender_goes_on(s: WriteSession, event: WriteEvent)
    requires
        s.inv(),
        s.expects(event),
    ensures
        ({
            let n = s.next(event);
            let now = match event {
                WriteEvent::Copied(k) => k as int,
                _ => 0,
            };
            &&& n.len == s.len
            &&& n.written == s.written + now
            &&& event is Copied ==> (n.step is NotifyFull <==> now == 0)
            &&& event is Copied ==> (n.step is NotifyLast <==> now > 0 && n.written == s.len)
            &&& event is Copied ==> (n.step is Copy <==> now > 0 && n.written < s.len)
            &&& event is Sent ==> (n.step is Wait <==> s.step is NotifyFull)
            &&& event is Sent ==> (n.step is Done <==> s.step is NotifyLast)
            &&& event is Woken ==> n.step is Copy
        }),
{
}

/// An event fits the step that it is the outcome of, and no other.
pub proof fn lemma_sender_events_fit(s: WriteSession, n: usize)
    ensures
        s.expects(WriteEvent::Copied(n)) <==> s.step is Copy && s.written + n <= s.len,
        s.expects(WriteEvent::Sent) <==> s.step is NotifyFull || s.step is NotifyLast,
        s.expects(WriteEvent::Woken) <==> s.step is Wait,
{
}

/// A read is over as soon as bytes came, with as many as came; with none the receiver says that
/// the ring is empty, waits, and copies again when it is woken.
pub proof fn lemma_receiver_goes_on(step: ReadStep, n: usize)
    ensures
        n > 0 ==> ReadStep::Copy.next(ReadEvent::Copied(n)) == ReadStep::Done(n),
        ReadStep::Copy.next(ReadEvent::Copied(0)) is NotifyEmpty,
        ReadStep::NotifyEmpty.next(ReadEvent::Sent) is Wait,
        ReadStep::Wait.next(ReadEvent::Woken) is Copy,
        step.expects(ReadEvent::Copied(n)) <==> step is Copy,
        step.expects(ReadEvent::Sent) <==> step is NotifyEmpty,
        step.expects(ReadEvent::Woken) <==> step is Wait,
{
}

/// Signals and sleeps are counted one by one, and nothing else of an end changes.
pub proof fn lemma_ends_count_one_by_one<S, T>(
    s: Sender<S, T>,
    r: Receiver<S, T>,
    w: WriteEvent,
    e: ReadEvent,
)
    requires
        s.sent_interrupts < u64::MAX,
        s.sleeps < u64::MAX,
        r.sent_interrupts < u64::MAX,
        r.sleeps < u64::MAX,
    ensures
        w is Copied ==> s.counted(w) == s,
        w is Sent ==> s.counted(w) == (Sender {
            sent_interrupts: (s.sent_interrupts + 1) as u64,
            ..s
        }),
        w is Woken ==> s.counted(w) == (Sender { sleeps: (s.sleeps + 1) as u64, ..s }),
        e is Copied ==> r.counted(e) == r,
        e is Sent ==> r.counted(e) == (Receiver {
            sent_interrupts: (r.sent_interrupts + 1) as u64,
            ..r
        }),
        e is Woken ==> r.counted(e) == (Receiver { sleeps: (r.sleeps + 1) as u64, ..r }),
{
}

} // verus!
