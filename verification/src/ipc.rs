//! The shared memory channel with waiting flags.
//!
//! Either side raises a flag before it waits and looks once more; the other signals after every
//! transfer, but only a side whose flag is up. The two sessions below say what either side does
//! next; the copying, the flags, the signalling and the waiting are done by whoever drives them.

use vstd::prelude::*;

use crate::ring;
use crate::ring::{Positions, Ring};

verus! {

/// The bytes that the two counters and the two flags take up in the shared memory.
pub const HEADER_BYTES: usize = 24;

/// One channel as it lies in the shared memory: two counters, two flags and a data area.
pub struct ShmChannel {
    pub ring: Ring,
    pub sender_waiting: u32,
    pub receiver_waiting: u32,
}

impl View for ShmChannel {
    type V = Seq<u8>;

    /// The bytes written and not yet read, oldest first.
    open spec fn view(&self) -> Seq<u8> {
        self.ring@
    }
}

impl ShmChannel {
    pub open spec fn inv(&self) -> bool {
        self.ring.inv()
    }

    /// The bytes that a channel takes up in the shared memory.
    pub fn size() -> (r: usize)
        ensures
            r == 65560,
    {
        HEADER_BYTES + ring::RING_CAPACITY
    }

    /// A channel in zeroed memory.
    pub fn new() -> (r: ShmChannel)
        ensures
            r.inv(),
            r@ == Seq::<u8>::empty(),
            r.ring.pos == (Positions { write_pos: 0, read_pos: 0 }),
            r.sender_waiting == 0,
            r.receiver_waiting == 0,
    {
        ShmChannel { ring: Ring::new(), sender_waiting: 0, receiver_waiting: 0 }
    }

    /// The two counters.
    pub fn positions(&self) -> (r: Positions)
        ensures
            r == self.ring.pos,
    {
        self.ring.pos
    }

    /// Takes what there is and `out` has room for. Returns the number of bytes.
    pub fn read_available(&mut self, out: &mut [u8]) -> (n: usize)
        requires
            old(self).inv(),
        ensures
            final(self).inv(),
            n == old(self).ring.pos.readable(old(out)@.len()),
            final(out)@ == old(self)@.take(n as int) + old(out)@.skip(n as int),
            final(self)@ == old(self)@.skip(n as int),
            final(self).ring.pos.write_pos == old(self).ring.pos.write_pos,
            final(self).ring.pos.read_pos == old(self).ring.pos.read_pos.wrapping_add(n as u64),
            final(self).sender_waiting == old(self).sender_waiting,
            final(self).receiver_waiting == old(self).receiver_waiting,
    {
        self.ring.read_available(out)
    }

    /// Adds as much of `src` as there is room for. Returns the number of bytes.
    pub fn write_available(&mut self, src: &[u8]) -> (n: usize)
        requires
            old(self).inv(),
        ensures
            final(self).inv(),
            n == old(self).ring.pos.writable(src@.len()),
            final(self)@ == old(self)@ + src@.take(n as int),
            final(self).ring.pos.read_pos == old(self).ring.pos.read_pos,
            final(self).ring.pos.write_pos == old(self).ring.pos.write_pos.wrapping_add(n as u64),
            final(self).sender_waiting == old(self).sender_waiting,
            final(self).receiver_waiting == old(self).receiver_waiting,
    {
        self.ring.write_available(src)
    }
}

/// What one side of the channel does next. The sender copies into the ring, the receiver out of
/// it; each has its own flag and looks at the other's.
#[derive(Debug, Clone, Copy, PartialEq, Eq, Structural)]
pub enum Step {
    /// Copy what can be copied.
    Copy,
    /// Look at the peer's flag, and signal the peer if it is up.
    Notify,
    /// Raise the own flag: nothing could be copied.
    Raise,
    /// Copy what can be copied by now.
    Recheck,
    /// Lower the own flag: the second look found something.
    Lower,
    /// Wait for the peer's signal.
    Wait,
    /// Lower the own flag: the signal came.
    LowerAfterWait,
    /// The transfer is over.
    Done,
}

/// What became of a step.
#[derive(Debug, Clone, Copy, PartialEq, Eq, Structural)]
pub enum Event {
    /// This many bytes were copied.
    Copied(usize),
    /// The peer's flag has this value.
    Flag(u32),
    /// The own flag was set or reset.
    Stored,
    /// The peer's signal came.
    Woken,
}

/// One transfer: a message on its way in, or a read.
#[derive(Debug, Clone, Copy, PartialEq, Eq, Structural)]
pub struct Transfer {
    /// The bytes after which the transfer is over: all of a message, or the first of a read.
    pub goal: usize,
    pub moved: usize,
    pub step: Step,
}

impl Transfer {
    pub open spec fn inv(self) -> bool {
        &&& self.step is Raise || self.step is Recheck || self.step is Wait
            || self.step is LowerAfterWait || self.step is Copy ==> self.moved < self.goal
        &&& self.step is Done ==> self.moved >= self.goal
    }

    pub open spec fn expects(self, event: Event) -> bool {
        match event {
            Event::Copied(n) => (self.step is Copy || self.step is Recheck) && self.moved + n
                <= usize::MAX,
            Event::Flag(_) => self.step is Notify,
            Event::Stored => self.step is Raise || self.step is Lower || self.step is LowerAfterWait,
            Event::Woken => self.step is Wait,
        }
    }

    pub open spec fn next(self, event: Event) -> Transfer {
        match event {
            Event::Copied(n) => Transfer {
                moved: (self.moved + n) as usize,
                step: match (self.step is Copy, n > 0) {
                    (true, true) => Step::Notify,
                    (true, false) => Step::Raise,
                    (false, true) => Step::Lower,
                    (false, false) => Step::Wait,
                },
                ..self
            },
            Event::Flag(_) => Transfer {
                step: if self.moved < self.goal {
                    Step::Copy
                } else {
                    Step::Done
                },
                ..self
            },
            Event::Stored => Transfer {
                step: if self.step is Raise {
                    Step::Recheck
                } else if self.step is Lower {
                    Step::Notify
                } else {
                    Step::Copy
                },
                ..self
            },
            Event::Woken => Transfer { step: Step::LowerAfterWait, ..self },
        }
    }

    /// Takes the transfer on by one event.
    fn advance(&mut self, event: Event)
        requires
            old(self).inv(),
            old(self).expects(event),
        ensures
            final(self).inv(),
            *final(self) == old(self).next(event),
    {
        match event {
            Event::Copied(n) => {
                let first_look = self.step == Step::Copy;
                self.moved = self.moved + n;
                self.step = if first_look {
                    if n > 0 {
                        Step::Notify
                    } else {
                        Step::Raise
                    }
                } else if n > 0 {
                    Step::Lower
                } else {
                    Step::Wait
                };
            },
            Event::Flag(_) => {
                self.step = if self.moved < self.goal {
                    Step::Copy
                } else {
                    Step::Done
                };
            },
            Event::Stored => {
                self.step = if self.step == Step::Raise {
                    Step::Recheck
                } else if self.step == Step::Lower {
                    Step::Notify
                } else {
                    Step::Copy
                };
            },
            Event::Woken => {
                self.step = Step::LowerAfterWait;
            },
        }
    }
}

/// The sending end: the channel, whom to signal, what to wait on, and its statistics. `S` is
/// the handle of the mapped channel, `T` that of the token on which the sender waits.
pub struct Sender<S, T> {
    pub shm: S,
    pub uipi_index: u64,
    pub token: T,
    pub sent_interrupts: u64,
    pub sleeps: u64,
}

impl<S, T> Sender<S, T> {
    pub fn new(shm: S, uipi_index: u64, token: T) -> (r: Self)
        ensures
            r == (Sender { shm, uipi_index, token, sent_interrupts: 0, sleeps: 0 }),
    {
        Sender { shm, uipi_index, token, sent_interrupts: 0, sleeps: 0 }
    }

    /// The signals sent.
    pub fn interrupts_sent(&self) -> (r: u64)
        ensures
            r == self.sent_interrupts,
    {
        self.sent_interrupts
    }

    /// The waits that ended.
    pub fn sleeps(&self) -> (r: u64)
        ensures
            r == self.sleeps,
    {
        self.sleeps
    }

    /// Begins a message of `len` bytes.
    pub fn begin_write(&self, len: usize) -> (r: Transfer)
        ensures
            r == (Transfer {
                goal: len,
                moved: 0,
                step: if len == 0 {
                    Step::Done
                } else {
                    Step::Copy
                },
            }),
            r.inv(),
    {
        Transfer {
            goal: len,
            moved: 0,
            step: if len == 0 {
                Step::Done
            } else {
                Step::Copy
            },
        }
    }

    /// Takes a message on by one event, and counts it. Returns whether the receiver is to be
    /// signalled now: its flag was seen up.
    pub fn write(&mut self, transfer: &mut Transfer, event: Event) -> (signal: bool)
        requires
            old(transfer).inv(),
            old(transfer).expects(event),
            event == Event::Flag(1) ==> old(self).sent_interrupts < u64::MAX,
            event is Woken ==> old(self).sleeps < u64::MAX,
        ensures
            final(transfer).inv(),
            *final(transfer) == old(transfer).next(event),
            signal == (event == Event::Flag(1)),
            *final(self) == (Sender {
                sent_interrupts: (old(self).sent_interrupts + if signal {
                    1int
                } else {
                    0
                }) as u64,
                sleeps: (old(self).sleeps + if event is Woken {
                    1int
                } else {
                    0
                }) as u64,
                ..*old(self)
            }),
    {
        transfer.advance(event);
        match event {
            Event::Flag(flag) => {
                if flag == 1 {
                    self.sent_interrupts = self.sent_interrupts + 1;
                    return true;
                }
            },
            Event::Woken => {
                self.sleeps = self.sleeps + 1;
            },
            _ => {},
        }
        false
    }
}

/// The receiving end: the channel, whom to signal, what to wait on, and its statistics.
pub struct Receiver<S, T> {
    pub shm: S,
    pub token: T,
    pub uipi_index: u64,
    pub sent_interrupts: u64,
    pub sleeps: u64,
}

impl<S, T> Receiver<S, T> {
    pub fn new(shm: S, token: T, uipi_index: u64) -> (r: Self)
        ensures
            r == (Receiver { shm, token, uipi_index, sent_interrupts: 0, sleeps: 0 }),
    {
        Receiver { shm, token, uipi_index, sent_interrupts: 0, sleeps: 0 }
    }

    /// The signals sent.
    pub fn interrupts_sent(&self) -> (r: u64)
        ensures
            r == self.sent_interrupts,
    {
        self.sent_interrupts
    }

    /// The waits that ended.
    pub fn sleeps(&self) -> (r: u64)
        ensures
            r == self.sleeps,
    {
        self.sleeps
    }

    /// Begins a read: it is over as soon as anything was read.
    pub fn begin_read(&self) -> (r: Transfer)
        ensures
            r == (Transfer { goal: 1, moved: 0, step: Step::Copy }),
            r.inv(),
    {
        Transfer { goal: 1, moved: 0, step: Step::Copy }
    }

    /// Takes a read on by one event, and counts it. Returns whether the sender is to be
    /// signalled now: its flag was seen up.
    pub fn read(&mut self, transfer: &mut Transfer, event: Event) -> (signal: bool)
        requires
            old(transfer).inv(),
            old(transfer).expects(event),
            event == Event::Flag(1) ==> old(self).sent_interrupts < u64::MAX,
            event is Woken ==> old(self).sleeps < u64::MAX,
        ensures
            final(transfer).inv(),
            *final(transfer) == old(transfer).next(event),
            signal == (event == Event::Flag(1)),
            *final(self) == (Receiver {
                sent_interrupts: (old(self).sent_interrupts + if signal {
                    1int
                } else {
                    0
                }) as u64,
                sleeps: (old(self).sleeps + if event is Woken {
                    1int
                } else {
                    0
                }) as u64,
                ..*old(self)
            }),
    {
        transfer.advance(event);
        match event {
            Event::Flag(flag) => {
                if flag == 1 {
                    self.sent_interrupts = self.sent_interrupts + 1;
                    return true;
                }
            },
            Event::Woken => {
                self.sleeps = self.sleeps + 1;
            },
            _ => {},
        }
        false
    }
}

impl<S, T> Sender<S, T> {
    /// Takes a message on as far as it goes without the receiver: until it is in, or the ring is
    /// full and the flag is up. What was written is signalled to a receiver that waits.
    pub fn write_until_wait(
        &mut self,
        channel: &mut ShmChannel,
        transfer: &mut Transfer,
        buf: &[u8],
    )
        requires
            old(channel).inv(),
            old(transfer).inv(),
            old(transfer).step is Copy,
            old(transfer).goal == buf@.len(),
            old(self).sent_interrupts < u64::MAX,
        ensures
            final(channel).inv(),
            final(transfer).inv(),
            ({
                let left = (buf@.len() - old(transfer).moved) as nat;
                let n = old(channel).ring.pos.writable(left);
                &&& *final(transfer) == (Transfer {
                    goal: old(transfer).goal,
                    moved: (old(transfer).moved + n) as usize,
                    step: if n == left {
                        Step::Done
                    } else {
                        Step::Wait
                    },
                })
                &&& final(channel)@ == old(channel)@ + buf@.subrange(
                    old(transfer).moved as int,
                    old(transfer).moved + n,
                )
                &&& final(channel).ring.pos.read_pos == old(channel).ring.pos.read_pos
                &&& final(channel).ring.pos.write_pos == old(channel).ring.pos.write_pos.wrapping_add(
                    n as u64,
                )
                &&& final(channel).receiver_waiting == old(channel).receiver_waiting
                &&& final(channel).sender_waiting == (if n == left {
                    old(channel).sender_waiting
                } else {
                    1
                })
                &&& *final(self) == (Sender {
                    sent_interrupts: (old(self).sent_interrupts + if n > 0 && old(
                        channel,
                    ).receiver_waiting == 1 {
                        1int
                    } else {
                        0
                    }) as u64,
                    ..*old(self)
                })
            }),
    {
        let ghost start = channel@;
        let ghost from = transfer.moved as int;
        assert(buf@.len() == buf.len());
        let rest = vstd::slice::slice_subrange(buf, transfer.moved, buf.len());
        let n = channel.write_available(rest);
        assert(rest@.take(n as int) =~= buf@.subrange(from, from + n));
        assert(channel@ =~= start + buf@.subrange(from, from + n));
        let ghost after = channel@;
        self.write(transfer, Event::Copied(n));
        if n > 0 {
            self.write(transfer, Event::Flag(channel.receiver_waiting));
            if transfer.step == Step::Done {
                return;
            }
            let rest = vstd::slice::slice_subrange(buf, transfer.moved, buf.len());
            let none = channel.write_available(rest);
            assert(rest@.take(0) =~= Seq::<u8>::empty());
            assert(channel@ =~= after);
            self.write(transfer, Event::Copied(none));
        }
        channel.sender_waiting = 1;
        self.write(transfer, Event::Stored);
        let rest = vstd::slice::slice_subrange(buf, transfer.moved, buf.len());
        let none = channel.write_available(rest);
        assert(rest@.take(0) =~= Seq::<u8>::empty());
        assert(channel@ =~= after);
        self.write(transfer, Event::Copied(none));
    }
}

impl<S, T> Receiver<S, T> {
    /// Takes a read as far as it goes without the sender: until something was read, which is
    /// signalled to a sender that waits, or the ring is empty and the flag is up. Gives back how
    /// much was read.
    pub fn read_until_wait(
        &mut self,
        channel: &mut ShmChannel,
        transfer: &mut Transfer,
        out: &mut [u8],
    )
        requires
            old(channel).inv(),
            *old(transfer) == (Transfer { goal: 1, moved: 0, step: Step::Copy }),
            old(self).sent_interrupts < u64::MAX,
        ensures
            final(channel).inv(),
            final(transfer).inv(),
            ({
                let n = old(channel).ring.pos.readable(old(out)@.len());
                &&& final(out)@ == old(channel)@.take(n as int) + old(out)@.skip(n as int)
                &&& final(channel)@ == old(channel)@.skip(n as int)
                &&& final(channel).ring.pos.write_pos == old(channel).ring.pos.write_pos
                &&& final(channel).ring.pos.read_pos == old(channel).ring.pos.read_pos.wrapping_add(
                    n as u64,
                )
                &&& *final(transfer) == (Transfer {
                    goal: 1,
                    moved: n as usize,
                    step: if n > 0 {
                        Step::Done
                    } else {
                        Step::Wait
                    },
                })
                &&& final(channel).sender_waiting == old(channel).sender_waiting
                &&& final(channel).receiver_waiting == (if n > 0 {
                    old(channel).receiver_waiting
                } else {
                    1
                })
                &&& *final(self) == (Receiver {
                    sent_interrupts: (old(self).sent_interrupts + if n > 0 && old(
                        channel,
                    ).sender_waiting == 1 {
                        1int
                    } else {
                        0
                    }) as u64,
                    ..*old(self)
                })
            }),
    {
        let ghost start = channel@;
        let ghost room = out@;
        let n = channel.read_available(out);
        self.read(transfer, Event::Copied(n));
        if n > 0 {
            self.read(transfer, Event::Flag(channel.sender_waiting));
            return;
        }
        assert(channel@ =~= start);
        assert(out@ =~= room);
        channel.receiver_waiting = 1;
        self.read(transfer, Event::Stored);
        let none = channel.read_available(out);
        assert(channel@ =~= start);
        assert(out@ =~= room);
        self.read(transfer, Event::Copied(none));
    }
}

/// One side of a link: its transfer, its flag, and whether a signal reached it that it has not
/// consumed.
pub struct Side {
    pub transfer: Transfer,
    pub flag: u32,
    pub signalled: bool,
}

/// A sender, a receiver and the ring between them.
pub struct Link {
    pub used: nat,
    pub sender: Side,
    pub receiver: Side,
}

/// A side after a step that is not a copy, and whether it signals its peer, whose flag is
/// `peer_flag`. A wait that no signal ends stays.
pub open spec fn side_step(side: Side, peer_flag: u32) -> (Side, bool) {
    match side.transfer.step {
        Step::Notify => (
            Side { transfer: side.transfer.next(Event::Flag(peer_flag)), ..side },
            peer_flag == 1,
        ),
        Step::Raise => (
            Side { transfer: side.transfer.next(Event::Stored), flag: 1, ..side },
            false,
        ),
        Step::Lower | Step::LowerAfterWait => (
            Side { transfer: side.transfer.next(Event::Stored), flag: 0, ..side },
            false,
        ),
        Step::Wait => if side.signalled {
            (
                Side { transfer: side.transfer.next(Event::Woken), signalled: false, ..side },
                false,
            )
        } else {
            (side, false)
        },
        _ => (side, false),
    }
}

/// A side after a signal, if there was one.
pub open spec fn signalled(side: Side, signal: bool) -> Side {
    Side { signalled: side.signalled || signal, ..side }
}

impl Side {
    pub open spec fn copies(self) -> bool {
        self.transfer.step is Copy || self.transfer.step is Recheck
    }

    /// A side that did not find anything to copy in its last look, after it raised its flag.
    pub open spec fn asleep(self) -> bool {
        self.transfer.step is Wait && !self.signalled
    }

    pub open spec fn inv(self) -> bool {
        &&& self.transfer.inv()
        &&& self.transfer.step is Recheck || self.transfer.step is Wait ==> self.flag == 1
    }
}

/// One side's next doing.
pub enum Move {
    /// The sender begins another message.
    Begin(usize),
    /// The sender does its step.
    Write,
    /// The receiver begins another read.
    Again,
    /// The receiver does its step, with room for this many bytes.
    Read(usize),
}

impl Link {
    /// A fresh channel: nothing in it, nobody waiting.
    pub open spec fn fresh() -> Link {
        Link {
            used: 0,
            sender: Side {
                transfer: Transfer { goal: 0, moved: 0, step: Step::Done },
                flag: 0,
                signalled: false,
            },
            receiver: Side {
                transfer: Transfer { goal: 1, moved: 0, step: Step::Copy },
                flag: 0,
                signalled: false,
            },
        }
    }

    pub open spec fn after(self, m: Move) -> Link {
        match m {
            Move::Begin(len) => if self.sender.transfer.step is Done && len > 0 {
                Link {
                    sender: Side {
                        transfer: Transfer { goal: len, moved: 0, step: Step::Copy },
                        ..self.sender
                    },
                    ..self
                }
            } else {
                self
            },
            Move::Write => if self.sender.copies() {
                let t = self.sender.transfer;
                let n = crate::bytes::least(
                    (ring::RING_CAPACITY - self.used) as nat,
                    (t.goal - t.moved) as nat,
                );
                Link {
                    used: self.used + n,
                    sender: Side { transfer: t.next(Event::Copied(n as usize)), ..self.sender },
                    ..self
                }
            } else {
                let (side, signal) = side_step(self.sender, self.receiver.flag);
                Link { sender: side, receiver: signalled(self.receiver, signal), ..self }
            },
            Move::Again => if self.receiver.transfer.step is Done {
                Link {
                    receiver: Side {
                        transfer: Transfer { goal: 1, moved: 0, step: Step::Copy },
                        ..self.receiver
                    },
                    ..self
                }
            } else {
                self
            },
            Move::Read(room) => if room == 0 {
                self
            } else if self.receiver.copies() {
                let n = crate::bytes::least(self.used, room as nat);
                Link {
                    used: (self.used - n) as nat,
                    receiver: Side {
                        transfer: self.receiver.transfer.next(Event::Copied(n as usize)),
                        ..self.receiver
                    },
                    ..self
                }
            } else {
                let (side, signal) = side_step(self.receiver, self.sender.flag);
                Link { receiver: side, sender: signalled(self.sender, signal), ..self }
            },
        }
    }

    /// What every move keeps.
    pub open spec fn inv(self) -> bool {
        &&& self.used <= ring::RING_CAPACITY
        &&& self.sender.inv()
        &&& self.receiver.inv()
        // A sender waits at a full ring, or the receiver has yet to tell it.
        &&& self.sender.asleep() ==> self.used == ring::RING_CAPACITY
            || self.receiver.transfer.step is Notify || self.receiver.transfer.step is Lower
        // A receiver waits at an empty ring, or the sender has yet to tell it.
        &&& self.receiver.asleep() ==> self.used == 0 || self.sender.transfer.step is Notify
            || self.sender.transfer.step is Lower
    }
}

/// The link after `moves` from a fresh one.
pub open spec fn run(moves: Seq<Move>) -> Link
    decreases moves.len(),
{
    if moves.len() == 0 {
        Link::fresh()
    } else {
        run(moves.drop_last()).after(moves.last())
    }
}

proof fn lemma_move_keeps_inv(link: Link, m: Move)
    requires
        link.inv(),
    ensures
        link.after(m).inv(),
{
}

proof fn lemma_run_keeps_inv(moves: Seq<Move>)
    ensures
        run(moves).inv(),
    decreases moves.len(),
{
    if moves.len() > 0 {
        lemma_run_keeps_inv(moves.drop_last());
        lemma_move_keeps_inv(run(moves.drop_last()), moves.last());
    }
}

/// Whatever the order of the steps, not both sides are asleep: a flag raised before the second
/// look leaves no gap through which a signal could be missed.
pub proof fn lemma_no_circular_wait(moves: Seq<Move>)
    ensures
        !(run(moves).sender.asleep() && run(moves).receiver.asleep()),
{
    lemma_run_keeps_inv(moves);
}

/// A sender that is asleep waits at a full ring, unless the receiver is just about to look at
/// its flag; that flag is up.
pub proof fn lemma_sender_sleeps_when_full(moves: Seq<Move>)
    requires
        run(moves).sender.asleep(),
        !(run(moves).receiver.transfer.step is Notify),
        !(run(moves).receiver.transfer.step is Lower),
    ensures
        run(moves).used == ring::RING_CAPACITY,
        run(moves).sender.flag == 1,
{
    lemma_run_keeps_inv(moves);
}

/// A receiver that is asleep waits at an empty ring, unless the sender is just about to look at
/// its flag; that flag is up.
pub proof fn lemma_receiver_sleeps_when_empty(moves: Seq<Move>)
    requires
        run(moves).receiver.asleep(),
        !(run(moves).sender.transfer.step is Notify),
        !(run(moves).sender.transfer.step is Lower),
    ensures
        run(moves).used == 0,
        run(moves).receiver.flag == 1,
{
    lemma_run_keeps_inv(moves);
}

/// The number of a message as its first four bytes carry it, the highest first.
pub open spec fn sequence_bytes(seq: u32) -> Seq<u8> {
    seq![
        (seq / 0x1000000) as u8,
        (seq / 0x10000 % 0x100) as u8,
        (seq / 0x100 % 0x100) as u8,
        (seq % 0x100) as u8,
    ]
}

/// Fills `buf` with message number `seq`: the number, then zeros.
pub fn fill_message(buf: &mut [u8], seq: u32)
    requires
        old(buf)@.len() >= 4,
    ensures
        final(buf)@ == sequence_bytes(seq) + Seq::new((old(buf)@.len() - 4) as nat, |i: int| 0u8),
{
    let len = buf.len();
    let mut i: usize = 0;
    while i < len
        invariant
            i <= len == buf@.len(),
            forall|k: int| 0 <= k < i ==> buf@[k] == 0,
        decreases len - i,
    {
        buf[i] = 0;
        i += 1;
    }
    buf[0] = (seq / 0x1000000) as u8;
    buf[1] = (seq / 0x10000 % 0x100) as u8;
    buf[2] = (seq / 0x100 % 0x100) as u8;
    buf[3] = (seq % 0x100) as u8;
    assert(buf@ =~= sequence_bytes(seq) + Seq::new((old(buf)@.len() - 4) as nat, |i: int| 0u8));
}

/// A side of the channel says what it moved before it goes on; when it could move nothing it
/// raises its flag and looks once more before it waits; and it lowers the flag again whether it
/// found something or was woken. No byte is counted twice or left out.
pub proof fn lemma_side_goes_on(t: Transfer, event: Event)
    requires
        t.inv(),
        t.expects(event),
    ensures
        ({
            let n = t.next(event);
            let now = match event {
                Event::Copied(k) => k as int,
                _ => 0,
            };
            &&& n.goal == t.goal
            &&& n.moved == t.moved + now
            &&& t.step is Copy ==> (n.step is Notify <==> now > 0) && (n.step is Raise <==> now == 0)
            &&& t.step is Recheck ==> (n.step is Lower <==> now > 0) && (n.step is Wait <==> now == 0)
            &&& t.step is Raise ==> n.step is Recheck
            &&& t.step is Lower ==> n.step is Notify
            &&& t.step is Wait ==> n.step is LowerAfterWait
            &&& t.step is LowerAfterWait ==> n.step is Copy
            &&& t.step is Notify ==> (n.step is Done <==> t.moved >= t.goal) && (n.step is Copy
                <==> t.moved < t.goal)
        }),
{
}

/// An event fits the step that it is the outcome of, and no other.
pub proof fn lemma_side_events_fit(t: Transfer, n: usize, flag: u32)
    ensures
        t.expects(Event::Copied(n)) <==> (t.step is Copy || t.step is Recheck) && t.moved + n
            <= usize::MAX,
        t.expects(Event::Flag(flag)) <==> t.step is Notify,
        t.expects(Event::Stored) <==> t.step is Raise || t.step is Lower || t.step is LowerAfterWait,
        t.expects(Event::Woken) <==> t.step is Wait,
{
}

/// The number of a message lies in its first four bytes, the highest first.
pub proof fn lemma_number_lies_in_front(seq: u32)
    ensures
        sequence_bytes(seq).len() == 4,
        ((sequence_bytes(seq)[0] * 256 + sequence_bytes(seq)[1]) * 256 + sequence_bytes(seq)[2]) * 256
            + sequence_bytes(seq)[3] == seq,
{
}

} // verus!
