//! The shared memory channel that signals at its high and low water marks.
//!
//! A sender writes on without a word and signals when the ring is full or its message is in.
//! A receiver reads on without a word and signals when the ring is empty. The two sessions
//! below say what either side does next; the copying, the signalling and the waiting are done
//! by whoever drives them.

use vstd::prelude::*;

use crate::ring;
use crate::ring::{Positions, Ring};

verus! {

/// The bytes that the two counters take up in the shared memory.
pub const HEADER_BYTES: usize = 16;

/// One channel as it lies in the shared memory: two counters and a data area.
pub struct ShmChannel {
    pub ring: Ring,
}

impl View for ShmChannel {
    type V = Seq<u8>;

    /// The bytes written and not yet read, oldest first.
    open spec fn view(&self) -> Seq<u8> {
        self.ring@
    }
}

impl ShmChannel {
    pub open spec fn inv(&self) -> bool {
        self.ring.inv()
    }

    /// The bytes that a channel takes up in the shared memory.
    pub fn size() -> (r: usize)
        ensures
            r == 65552,
    {
        HEADER_BYTES + ring::RING_CAPACITY
    }

    /// A channel in zeroed memory.
    pub fn new() -> (r: ShmChannel)
        ensures
            r.inv(),
            r@ == Seq::<u8>::empty(),
            r.ring.pos == (Positions { write_pos: 0, read_pos: 0 }),
    {
        ShmChannel { ring: Ring::new() }
    }

    /// The two counters.
    pub fn positions(&self) -> (r: Positions)
        ensures
            r == self.ring.pos,
    {
        self.ring.pos
    }

    /// Takes what there is and `out` has room for. Returns the number of bytes.
    pub fn read_available(&mut self, out: &mut [u8]) -> (n: usize)
        requires
            old(self).inv(),
        ensures
            final(self).inv(),
            n == old(self).ring.pos.readable(old(out)@.len()),
            final(out)@ == old(self)@.take(n as int) + old(out)@.skip(n as int),
            final(self)@ == old(self)@.skip(n as int),
            final(self).ring.pos.write_pos == old(self).ring.pos.write_pos,
            final(self).ring.pos.read_pos == old(self).ring.pos.read_pos.wrapping_add(n as u64),
    {
        self.ring.read_available(out)
    }

    /// Adds as much of `src` as there is room for. Returns the number of bytes.
    pub fn write_available(&mut self, src: &[u8]) -> (n: usize)
        requires
            old(self).inv(),
        ensures
            final(self).inv(),
            n == old(self).ring.pos.writable(src@.len()),
            final(self)@ == old(self)@ + src@.take(n as int),
            final(self).ring.pos.read_pos == old(self).ring.pos.read_pos,
            final(self).ring.pos.write_pos == old(self).ring.pos.write_pos.wrapping_add(n as u64),
    {
        self.ring.write_available(src)
    }
}

/// What a sender does next.
#[derive(Debug, Clone, Copy, PartialEq, Eq, Structural)]
pub enum WriteStep {
    /// Copy what there is room for into the ring.
    Copy,
    /// Signal the receiver: the ring is full.
    NotifyFull,
    /// Wait for the receiver's signal.
    Wait,
    /// Signal the receiver: the message is in.
    NotifyLast,
    /// The message is in and the receiver knows.
    Done,
}

/// What became of a sender's step.
#[derive(Debug, Clone, Copy, PartialEq, Eq, Structural)]
pub enum WriteEvent {
    /// This many bytes were copied.
    Copied(usize),
    /// The signal was sent.
    Sent,
    /// The receiver's signal came.
    Woken,
}

/// One message on its way into a channel.
#[derive(Debug, Clone, Copy, PartialEq, Eq, Structural)]
pub struct WriteSession {
    pub len: usize,
    pub written: usize,
    pub step: WriteStep,
}

impl WriteSession {
    pub open spec fn inv(self) -> bool {
        &&& self.written <= self.len
        &&& self.step is Copy || self.step is NotifyFull || self.step is Wait ==> self.written
            < self.len
        &&& self.step is NotifyLast || self.step is Done ==> self.written == self.len
    }

    /// The session of a message of `len` bytes, none of which is in.
    pub open spec fn start(len: usize) -> WriteSession {
        WriteSession {
            len,
            written: 0,
            step: if len == 0 {
                WriteStep::NotifyLast
            } else {
                WriteStep::Copy
            },
        }
    }

    /// The event can follow on the session's step.
    pub open spec fn expects(self, event: WriteEvent) -> bool {
        match event {
            WriteEvent::Copied(n) => self.step is Copy && self.written + n <= self.len,
            WriteEvent::Sent => self.step is NotifyFull || self.step is NotifyLast,
            WriteEvent::Woken => self.step is Wait,
        }
    }

    /// The session after the event.
    pub open spec fn next(self, event: WriteEvent) -> WriteSession {
        match event {
            WriteEvent::Copied(n) => if n == 0 {
                WriteSession { step: WriteStep::NotifyFull, ..self }
            } else {
                WriteSession {
                    written: (self.written + n) as usize,
                    step: if self.written + n < self.len {
                        WriteStep::Copy
                    } else {
                        WriteStep::NotifyLast
                    },
                    ..self
                }
            },
            WriteEvent::Sent => if self.step is NotifyFull {
                WriteSession { step: WriteStep::Wait, ..self }
            } else {
                WriteSession { step: WriteStep::Done, ..self }
            },
            WriteEvent::Woken => WriteSession { step: WriteStep::Copy, ..self },
        }
    }
}

/// What a receiver does next.
#[derive(Debug, Clone, Copy, PartialEq, Eq, Structural)]
pub enum ReadStep {
    /// Copy what there is out of the ring.
    Copy,
    /// Signal the sender: the ring is empty.
    NotifyEmpty,
    /// Wait for the sender's signal.
    Wait,
    /// This many bytes were read.
    Done(usize),
}

/// What became of a receiver's step.
#[derive(Debug, Clone, Copy, PartialEq, Eq, Structural)]
pub enum ReadEvent {
    /// This many bytes were copied.
    Copied(usize),
    /// The signal was sent.
    Sent,
    /// The sender's signal came.
    Woken,
}

impl ReadStep {
    /// The event can follow on this step.
    pub open spec fn expects(self, event: ReadEvent) -> bool {
        match event {
            ReadEvent::Copied(_) => self is Copy,
            ReadEvent::Sent => self is NotifyEmpty,
            ReadEvent::Woken => self is Wait,
        }
    }

    /// The step after the event.
    pub open spec fn next(self, event: ReadEvent) -> ReadStep {
        match event {
            ReadEvent::Copied(n) => if n == 0 {
                ReadStep::NotifyEmpty
            } else {
                ReadStep::Done(n)
            },
            ReadEvent::Sent => ReadStep::Wait,
            ReadEvent::Woken => ReadStep::Copy,
        }
    }
}

/// The sending end: the channel, whom to signal, what to wait on, and its statistics. `S` is
/// the handle of the mapped channel, `T` that of the token on which the sender waits.
pub struct Sender<S, T> {
    pub shm: S,
    pub uipi_index: u64,
    pub token: T,
    pub sent_interrupts: u64,
    pub sleeps: u64,
}

impl<S, T> Sender<S, T> {
    /// This end with the event counted: a signal sent, or a wait that ended.
    pub open spec fn counted(self, event: WriteEvent) -> Sender<S, T> {
        Sender {
            sent_interrupts: (self.sent_interrupts + if event is Sent {
                1int
            } else {
                0
            }) as u64,
            sleeps: (self.sleeps + if event is Woken {
                1int
            } else {
                0
            }) as u64,
            ..self
        }
    }

    pub fn new(shm: S, uipi_index: u64, token: T) -> (r: Self)
        ensures
            r == (Sender { shm, uipi_index, token, sent_interrupts: 0, sleeps: 0 }),
    {
        Sender { shm, uipi_index, token, sent_interrupts: 0, sleeps: 0 }
    }

    /// The signals sent.
    pub fn interrupts_sent(&self) -> (r: u64)
        ensures
            r == self.sent_interrupts,
    {
        self.sent_interrupts
    }

    /// The waits that ended.
    pub fn sleeps(&self) -> (r: u64)
        ensures
            r == self.sleeps,
    {
        self.sleeps
    }

    /// Whether the receiver has taken all that was written, by the channel's two counters.
    pub fn is_drain(&self, pos: Positions) -> (r: bool)
        ensures
            r == (pos.write_pos == pos.read_pos),
    {
        pos.drained()
    }

    /// Begins a message of `len` bytes.
    pub fn begin_write(&self, len: usize) -> (r: WriteSession)
        ensures
            r == WriteSession::start(len),
            r.inv(),
    {
        WriteSession {
            len,
            written: 0,
            step: if len == 0 {
                WriteStep::NotifyLast
            } else {
                WriteStep::Copy
            },
        }
    }

    /// Takes a message on by one event, and counts it.
    pub fn write(&mut self, session: &mut WriteSession, event: WriteEvent)
        requires
            old(session).inv(),
            old(session).expects(event),
            event is Sent ==> old(self).sent_interrupts < u64::MAX,
            event is Woken ==> old(self).sleeps < u64::MAX,
        ensures
            final(session).inv(),
            *final(session) == old(session).next(event),
            *final(self) == old(self).counted(event),
    {
        match event {
            WriteEvent::Copied(n) => {
                if n == 0 {
                    session.step = WriteStep::NotifyFull;
                } else {
                    session.written = session.written + n;
                    if session.written == session.len {
                        session.step = WriteStep::NotifyLast;
                    }
                }
            },
            WriteEvent::Sent => {
                self.sent_interrupts = self.sent_interrupts + 1;
                if session.step == WriteStep::NotifyFull {
                    session.step = WriteStep::Wait;
                } else {
                    session.step = WriteStep::Done;
                }
            },
            WriteEvent::Woken => {
                self.sleeps = self.sleeps + 1;
                session.step = WriteStep::Copy;
            },
        }
    }
}

impl<S, T> Sender<S, T> {
    /// Takes a message on as far as it goes without the receiver: until it is in, or the ring is
    /// full. Either is signalled, once.
    pub fn write_until_wait(
        &mut self,
        channel: &mut ShmChannel,
        session: &mut WriteSession,
        buf: &[u8],
    )
        requires
            old(channel).inv(),
            old(session).inv(),
            old(session).step is Copy,
            old(session).len == buf@.len(),
            old(self).sent_interrupts < u64::MAX,
        ensures
            final(channel).inv(),
            final(session).inv(),
            ({
                let left = (buf@.len() - old(session).written) as nat;
                let n = old(channel).ring.pos.writable(left);
                &&& *final(session) == (WriteSession {
                    len: old(session).len,
                    written: (old(session).written + n) as usize,
                    step: if n == left {
                        WriteStep::Done
                    } else {
                        WriteStep::Wait
                    },
                })
                &&& final(channel)@ == old(channel)@ + buf@.subrange(
                    old(session).written as int,
                    old(session).written + n,
                )
                &&& final(channel).ring.pos.read_pos == old(channel).ring.pos.read_pos
                &&& final(channel).ring.pos.write_pos == old(channel).ring.pos.write_pos.wrapping_add(
                    n as u64,
                )
            }),
            *final(self) == (Sender {
                sent_interrupts: (old(self).sent_interrupts + 1) as u64,
                ..*old(self)
            }),
    {
        let ghost start = channel@;
        let ghost from = session.written as int;
        assert(buf@.len() == buf.len());
        let rest = vstd::slice::slice_subrange(buf, session.written, buf.len());
        let n = channel.write_available(rest);
        assert(rest@.take(n as int) =~= buf@.subrange(from, from + n));
        self.write(session, WriteEvent::Copied(n));
        if session.step == WriteStep::Copy {
            let rest = vstd::slice::slice_subrange(buf, session.written, buf.len());
            let none = channel.write_available(rest);
            assert(none == 0);
            assert(rest@.take(0) =~= Seq::<u8>::empty());
            assert(channel@ =~= start + buf@.subrange(from, from + n));
            self.write(session, WriteEvent::Copied(none));
        }
        self.write(session, WriteEvent::Sent);
    }
}

/// The receiving end: the channel, whom to signal, what to wait on, and its statistics.
pub struct Receiver<S, T> {
    pub shm: S,
    pub token: T,
    pub uipi_index: u64,
    pub sent_interrupts: u64,
    pub sleeps: u64,
}

impl<S, T> Receiver<S, T> {
    /// This end with the event counted: a signal sent, or a wait that ended.
    pub open spec fn counted(self, event: ReadEvent) -> Receiver<S, T> {
        Receiver {
            sent_interrupts: (self.sent_interrupts + if event is Sent {
                1int
            } else {
                0
            }) as u64,
            sleeps: (self.sleeps + if event is Woken {
                1int
            } else {
                0
            }) as u64,
            ..self
        }
    }

    pub fn new(shm: S, token: T, uipi_index: u64) -> (r: Self)
        ensures
            r == (Receiver { shm, token, uipi_index, sent_interrupts: 0, sleeps: 0 }),
    {
        Receiver { shm, token, uipi_index, sent_interrupts: 0, sleeps: 0 }
    }

    /// The signals sent.
    pub fn interrupts_sent(&self) -> (r: u64)
        ensures
            r == self.sent_interrupts,
    {
        self.sent_interrupts
    }

    /// The waits that ended.
    pub fn sleeps(&self) -> (r: u64)
        ensures
            r == self.sleeps,
    {
        self.sleeps
    }

    /// Takes a read on by one event, and counts it. A read begins with a copy.
    pub fn read(&mut self, step: ReadStep, event: ReadEvent) -> (r: ReadStep)
        requires
            step.expects(event),
            event is Sent ==> old(self).sent_interrupts < u64::MAX,
            event is Woken ==> old(self).sleeps < u64::MAX,
        ensures
            r == step.next(event),
            *final(self) == old(self).counted(event),
    {
        match event {
            ReadEvent::Copied(n) => if n == 0 {
                ReadStep::NotifyEmpty
            } else {
                ReadStep::Done(n)
            },
            ReadEvent::Sent => {
                self.sent_interrupts = self.sent_interrupts + 1;
                ReadStep::Wait
            },
            ReadEvent::Woken => {
                self.sleeps = self.sleeps + 1;
                ReadStep::Copy
            },
        }
    }
}

impl<S, T> Receiver<S, T> {
    /// Takes a read as far as it goes without the sender: gives back how much was read, or
    /// signals that the ring is empty and waits.
    pub fn read_until_wait(&mut self, channel: &mut ShmChannel, out: &mut [u8]) -> (r: ReadStep)
        requires
            old(channel).inv(),
            old(self).sent_interrupts < u64::MAX,
        ensures
            final(channel).inv(),
            ({
                let n = old(channel).ring.pos.readable(old(out)@.len());
                &&& final(out)@ == old(channel)@.take(n as int) + old(out)@.skip(n as int)
                &&& final(channel)@ == old(channel)@.skip(n as int)
                &&& final(channel).ring.pos.write_pos == old(channel).ring.pos.write_pos
                &&& final(channel).ring.pos.read_pos == old(channel).ring.pos.read_pos.wrapping_add(
                    n as u64,
                )
                &&& r == (if n > 0 {
                    ReadStep::Done(n as usize)
                } else {
                    ReadStep::Wait
                })
                &&& *final(self) == (Receiver {
                    sent_interrupts: (old(self).sent_interrupts + if n > 0 {
                        0int
                    } else {
                        1
                    }) as u64,
                    ..*old(self)
                })
            }),
    {
        let n = channel.read_available(out);
        let step = self.read(ReadStep::Copy, ReadEvent::Copied(n));
        if n > 0 {
            return step;
        }
        self.read(step, ReadEvent::Sent)
    }
}

} // verus!
