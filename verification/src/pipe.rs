//! The channel over a named pipe.
//!
//! The kernel keeps the bytes. Either side signals the other after every transfer. When the pipe
//! would block it signals too, and waits for the other's signal. The reads, the writes, the
//! signalling and the waiting are done by whoever drives the sessions below.

use vstd::prelude::*;

use crate::sys::IoOutcome;

verus! {

/// The system's error that a file exists.
pub const EEXIST: i32 = 17;

/// The system's error that a pipe has no reader yet.
pub const ENXIO: i32 = 6;

/// What making a pipe comes to.
#[derive(Debug, Clone, Copy, PartialEq, Eq, Structural)]
pub enum MkfifoResult {
    Made,
    Failed,
}

/// The path cannot be handed to the system.
pub open spec fn has_nul(path: Seq<u8>) -> bool {
    exists|i: int| 0 <= i < path.len() && path[i] == 0
}

/// Whether a path can be handed to the system: it holds no zero byte.
pub fn path_is_valid(path: &[u8]) -> (r: bool)
    ensures
        r == !has_nul(path@),
{
    let mut i: usize = 0;
    while i < path.len()
        invariant
            i <= path.len(),
            forall|k: int| 0 <= k < i ==> path@[k] != 0,
        decreases path.len() - i,
    {
        if path[i] == 0 {
            assert(path@[i as int] == 0);
            return false;
        }
        i += 1;
    }
    true
}

/// What making a pipe comes to, by the return value of the call and the system's last error. A
/// pipe that exists already is as good.
pub fn mkfifo(result: i32, os_error: i32) -> (r: MkfifoResult)
    ensures
        r == (if result == 0 || os_error == EEXIST {
            MkfifoResult::Made
        } else {
            MkfifoResult::Failed
        }),
        r is Made <==> result == 0 || os_error == 17,
{
    if result == 0 || os_error == EEXIST {
        MkfifoResult::Made
    } else {
        MkfifoResult::Failed
    }
}

/// What opening an end of a pipe comes to.
#[derive(Debug, Clone, Copy, PartialEq, Eq, Structural)]
pub enum OpenStep {
    Opened(i32),
    /// There is no reader yet; try again later.
    Later,
    Failed,
}

/// What opening the reading end comes to, by the return value of the call.
pub fn open_receiver(fd: i32) -> (r: OpenStep)
    ensures
        r == (if fd >= 0 {
            OpenStep::Opened(fd)
        } else {
            OpenStep::Failed
        }),
{
    if fd < 0 {
        OpenStep::Failed
    } else {
        OpenStep::Opened(fd)
    }
}

/// What opening the writing end comes to, by the return value of the call and the system's last
/// error.
pub fn open_sender(fd: i32, os_error: i32) -> (r: OpenStep)
    ensures
        r == (if fd >= 0 {
            OpenStep::Opened(fd)
        } else if os_error == ENXIO {
            OpenStep::Later
        } else {
            OpenStep::Failed
        }),
        r is Later <==> fd < 0 && os_error == 6,
{
    if fd >= 0 {
        OpenStep::Opened(fd)
    } else if os_error == ENXIO {
        OpenStep::Later
    } else {
        OpenStep::Failed
    }
}

/// What follows on a read or a write.
#[derive(Debug, Clone, Copy, PartialEq, Eq, Structural)]
pub enum PipeStep {
    /// Signal the peer, and give back that this many bytes were moved.
    Signal(usize),
    /// Give back that nothing was moved.
    Nothing,
    /// Signal the peer, wait for its signal, then try again.
    SignalAndWait,
    /// Give the system's error back.
    Failed,
}

/// The peer is signalled.
pub open spec fn signals(step: PipeStep) -> bool {
    step is Signal || step is SignalAndWait
}

/// What follows on the outcome of a read or a write.
pub open spec fn pipe_step(outcome: IoOutcome) -> PipeStep {
    match outcome {
        IoOutcome::Bytes(n) => if n > 0 {
            PipeStep::Signal(n)
        } else {
            PipeStep::Nothing
        },
        IoOutcome::WouldBlock => PipeStep::SignalAndWait,
        IoOutcome::Failed => PipeStep::Failed,
    }
}

fn step_on(outcome: IoOutcome) -> (r: PipeStep)
    ensures
        r == pipe_step(outcome),
{
    match outcome {
        IoOutcome::Bytes(n) => {
            if n > 0 {
                PipeStep::Signal(n)
            } else {
                PipeStep::Nothing
            }
        },
        IoOutcome::WouldBlock => PipeStep::SignalAndWait,
        IoOutcome::Failed => PipeStep::Failed,
    }
}

/// The sending end: the pipe, whom to signal, what to wait on, and its statistics. `T` is the
/// handle of the token on which the sender waits.
pub struct PipeSender<T> {
    pub fd: i32,
    pub uipi_index: u64,
    pub token: T,
    pub sent_interrupts: u64,
    pub sleeps: u64,
}

impl<T> PipeSender<T> {
    pub fn new(fd: i32, uipi_index: u64, token: T) -> (r: Self)
        ensures
            r == (PipeSender { fd, uipi_index, token, sent_interrupts: 0, sleeps: 0 }),
    {
        PipeSender { fd, uipi_index, token, sent_interrupts: 0, sleeps: 0 }
    }

    /// The signals sent.
    pub fn interrupts_sent(&self) -> (r: u64)
        ensures
            r == self.sent_interrupts,
    {
        self.sent_interrupts
    }

    /// The waits that ended.
    pub fn sleeps(&self) -> (r: u64)
        ensures
            r == self.sleeps,
    {
        self.sleeps
    }

    /// What follows on a write. A signal is counted.
    pub fn poll_write(&mut self, outcome: IoOutcome) -> (r: PipeStep)
        requires
            signals(pipe_step(outcome)) ==> old(self).sent_interrupts < u64::MAX,
        ensures
            r == pipe_step(outcome),
            *final(self) == (PipeSender {
                sent_interrupts: (old(self).sent_interrupts + if signals(r) {
                    1int
                } else {
                    0
                }) as u64,
                ..*old(self)
            }),
    {
        let step = step_on(outcome);
        match step {
            PipeStep::Signal(_) | PipeStep::SignalAndWait => {
                self.sent_interrupts = self.sent_interrupts + 1;
            },
            _ => {},
        }
        step
    }

    /// Counts a wait that ended.
    pub fn woken(&mut self)
        requires
            old(self).sleeps < u64::MAX,
        ensures
            *final(self) == (PipeSender { sleeps: (old(self).sleeps + 1) as u64, ..*old(self) }),
    {
        self.sleeps = self.sleeps + 1;
    }

    /// Begins to write `len` bytes.
    pub fn write_all(&self, len: usize) -> (r: Fill)
        ensures
            r == (Fill { len, moved: 0 }),
            r.inv(),
    {
        Fill { len, moved: 0 }
    }
}

/// The receiving end: the pipe, whom to signal, what to wait on, and its statistics.
pub struct PipeReceiver<T> {
    pub fd: i32,
    pub token: T,
    pub uipi_index: u64,
    pub sent_interrupts: u64,
    pub sleeps: u64,
}

impl<T> PipeReceiver<T> {
    pub fn new(fd: i32, token: T, uipi_index: u64) -> (r: Self)
        ensures
            r == (PipeReceiver { fd, token, uipi_index, sent_interrupts: 0, sleeps: 0 }),
    {
        PipeReceiver { fd, token, uipi_index, sent_interrupts: 0, sleeps: 0 }
    }

    /// The signals sent.
    pub fn interrupts_sent(&self) -> (r: u64)
        ensures
            r == self.sent_interrupts,
    {
        self.sent_interrupts
    }

    /// The waits that ended.
    pub fn sleeps(&self) -> (r: u64)
        ensures
            r == self.sleeps,
    {
        self.sleeps
    }

    /// What follows on a read. A signal is counted. A read of nothing is the end: no writer is
    /// left.
    pub fn poll_read(&mut self, outcome: IoOutcome) -> (r: PipeStep)
        requires
            signals(pipe_step(outcome)) ==> old(self).sent_interrupts < u64::MAX,
        ensures
            r == pipe_step(outcome),
            *final(self) == (PipeReceiver {
                sent_interrupts: (old(self).sent_interrupts + if signals(r) {
                    1int
                } else {
                    0
                }) as u64,
                ..*old(self)
            }),
    {
        let step = step_on(outcome);
        match step {
            PipeStep::Signal(_) | PipeStep::SignalAndWait => {
                self.sent_interrupts = self.sent_interrupts + 1;
            },
            _ => {},
        }
        step
    }

    /// Counts a wait that ended.
    pub fn woken(&mut self)
        requires
            old(self).sleeps < u64::MAX,
        ensures
            *final(self) == (PipeReceiver { sleeps: (old(self).sleeps + 1) as u64, ..*old(self) }),
    {
        self.sleeps = self.sleeps + 1;
    }

    /// Begins to read `len` bytes.
    pub fn read_exact(&self, len: usize) -> (r: Fill)
        ensures
            r == (Fill { len, moved: 0 }),
            r.inv(),
    {
        Fill { len, moved: 0 }
    }
}

/// A buffer that is filled, or emptied, bit by bit.
#[derive(Debug, Clone, Copy, PartialEq, Eq, Structural)]
pub struct Fill {
    pub len: usize,
    pub moved: usize,
}

/// Whether a buffer needs more.
#[derive(Debug, Clone, Copy, PartialEq, Eq, Structural)]
pub enum Progress {
    /// Go on from this byte.
    From(usize),
    /// Over; this many bytes were moved.
    Over(usize),
}

impl Fill {
    pub open spec fn inv(self) -> bool {
        self.moved <= self.len
    }

    pub open spec fn progress(self) -> Progress {
        if self.moved < self.len {
            Progress::From(self.moved)
        } else {
            Progress::Over(self.moved)
        }
    }

    /// How far the buffer is.
    pub fn start(&self) -> (r: Progress)
        requires
            self.inv(),
        ensures
            r == self.progress(),
    {
        if self.moved < self.len {
            Progress::From(self.moved)
        } else {
            Progress::Over(self.moved)
        }
    }

    /// Notes that `n` bytes were written.
    pub fn wrote(&mut self, n: usize) -> (r: Progress)
        requires
            old(self).inv(),
            old(self).moved + n <= old(self).len,
        ensures
            final(self).inv(),
            *final(self) == (Fill { moved: (old(self).moved + n) as usize, ..*old(self) }),
            r == final(self).progress(),
    {
        self.moved = self.moved + n;
        self.start()
    }

    /// Notes that `n` bytes were read. Nothing read is the end, whatever is missing.
    pub fn got(&mut self, n: usize) -> (r: Progress)
        requires
            old(self).inv(),
            old(self).moved + n <= old(self).len,
        ensures
            final(self).inv(),
            *final(self) == (Fill { moved: (old(self).moved + n) as usize, ..*old(self) }),
            r == (if n == 0 {
                Progress::Over(old(self).moved)
            } else {
                final(self).progress()
            }),
    {
        if n == 0 {
            return Progress::Over(self.moved);
        }
        self.moved = self.moved + n;
        self.start()
    }
}

/// A write is over only when every byte was written; a read that is over with bytes missing met
/// the end.
pub proof fn lemma_fill_ends_full(before: Fill, n: usize)
    requires
        before.inv(),
        before.moved < before.len,
        before.moved + n <= before.len,
    ensures
        ({
            let after = Fill { moved: (before.moved + n) as usize, ..before };
            &&& after.progress() is Over <==> after.moved == after.len
            &&& after.progress() matches Progress::Over(m) ==> m == after.len
        }),
{
}

/// What one side of a pipe does next.
#[derive(Debug, Clone, Copy, PartialEq, Eq, Structural)]
pub enum Phase {
    Transfer,
    /// Signal that bytes were moved.
    Signal,
    /// Signal that nothing could be moved.
    SignalBlocked,
    Wait,
}

/// One side of a pipe, and whether a signal reached it that it has not consumed.
pub struct Side {
    pub phase: Phase,
    pub signalled: bool,
}

/// A writer, a reader and the pipe between them.
pub struct Link {
    pub used: nat,
    pub capacity: nat,
    pub writer: Side,
    pub reader: Side,
}

/// One side's next doing.
pub enum Move {
    /// The writer does its step, with this many bytes left to write.
    Write(nat),
    /// The reader does its step, with room for this many bytes.
    Read(nat),
}

impl Side {
    pub open spec fn asleep(self) -> bool {
        self.phase is Wait && !self.signalled
    }

    /// The side could move nothing when it last tried, and has heard nothing since.
    pub open spec fn blocked(self) -> bool {
        (self.phase is Wait || self.phase is SignalBlocked) && !self.signalled
    }

    /// The side after a transfer of `n` bytes.
    pub open spec fn transferred(self, n: nat) -> Side {
        Side {
            phase: match pipe_step(
                if n > 0 {
                    IoOutcome::Bytes(n as usize)
                } else {
                    IoOutcome::WouldBlock
                },
            ) {
                PipeStep::Signal(_) => Phase::Signal,
                _ => Phase::SignalBlocked,
            },
            ..self
        }
    }

    /// The side after a step that is no transfer.
    pub open spec fn went_on(self) -> Side {
        match self.phase {
            Phase::Wait => if self.signalled {
                Side { phase: Phase::Transfer, signalled: false }
            } else {
                self
            },
            Phase::SignalBlocked => Side { phase: Phase::Wait, ..self },
            _ => Side { phase: Phase::Transfer, ..self },
        }
    }

    /// The side after its peer's step.
    pub open spec fn heard(self, peer: Side) -> Side {
        Side {
            signalled: self.signalled || peer.phase is Signal || peer.phase is SignalBlocked,
            ..self
        }
    }
}

impl Link {
    pub open spec fn fresh(capacity: nat) -> Link {
        Link {
            used: 0,
            capacity,
            writer: Side { phase: Phase::Transfer, signalled: false },
            reader: Side { phase: Phase::Transfer, signalled: false },
        }
    }

    pub open spec fn after(self, m: Move) -> Link {
        match m {
            Move::Write(len) => if len == 0 || len > usize::MAX {
                self
            } else if self.writer.phase is Transfer {
                let n = crate::bytes::least((self.capacity - self.used) as nat, len);
                Link { used: self.used + n, writer: self.writer.transferred(n), ..self }
            } else {
                Link {
                    writer: self.writer.went_on(),
                    reader: self.reader.heard(self.writer),
                    ..self
                }
            },
            Move::Read(room) => if room == 0 || room > usize::MAX {
                self
            } else if self.reader.phase is Transfer {
                let n = crate::bytes::least(self.used, room);
                Link { used: (self.used - n) as nat, reader: self.reader.transferred(n), ..self }
            } else {
                Link {
                    reader: self.reader.went_on(),
                    writer: self.writer.heard(self.reader),
                    ..self
                }
            },
        }
    }

    pub open spec fn inv(self) -> bool {
        &&& self.used <= self.capacity
        &&& self.capacity > 0
        &&& self.writer.blocked() ==> self.used == self.capacity || self.reader.phase is Signal
        &&& self.reader.blocked() ==> self.used == 0 || self.writer.phase is Signal
    }
}

/// The link after `moves` from a fresh one.
pub open spec fn run(capacity: nat, moves: Seq<Move>) -> Link
    decreases moves.len(),
{
    if moves.len() == 0 {
        Link::fresh(capacity)
    } else {
        run(capacity, moves.drop_last()).after(moves.last())
    }
}

proof fn lemma_run_keeps_inv(capacity: nat, moves: Seq<Move>)
    requires
        capacity > 0,
    ensures
        run(capacity, moves).inv(),
        run(capacity, moves).capacity == capacity,
    decreases moves.len(),
{
    if moves.len() > 0 {
        lemma_run_keeps_inv(capacity, moves.drop_last());
    }
}

/// Every transfer is signalled, so the two sides never wait for each other: whatever the order
/// of their steps, not both are asleep.
pub proof fn lemma_no_circular_wait(capacity: nat, moves: Seq<Move>)
    requires
        capacity > 0,
    ensures
        !(run(capacity, moves).writer.asleep() && run(capacity, moves).reader.asleep()),
{
    lemma_run_keeps_inv(capacity, moves);
}

/// What follows on a transfer: bytes that were moved are signalled and given back, none at all are
/// given back without a word, a pipe that would block is signalled and waited for, and an error is
/// given back.
pub proof fn lemma_transfer_is_followed_up(outcome: IoOutcome)
    ensures
        pipe_step(outcome) is Failed <==> outcome is Failed,
        pipe_step(outcome) is SignalAndWait <==> outcome is WouldBlock,
        pipe_step(outcome) is Nothing <==> outcome == IoOutcome::Bytes(0),
        outcome matches IoOutcome::Bytes(n) && n > 0 ==> pipe_step(outcome) == PipeStep::Signal(
            outcome->Bytes_0,
        ),
        signals(pipe_step(outcome)) <==> outcome is WouldBlock || (outcome matches IoOutcome::Bytes(n)
            && n > 0),
{
}

/// A buffer is gone on with from the first byte that was not moved, until there is none.
pub proof fn lemma_fill_goes_on_where_it_stopped(f: Fill)
    requires
        f.moved <= f.len,
    ensures
        f.moved < f.len ==> f.progress() == Progress::From(f.moved),
        f.moved == f.len ==> f.progress() == Progress::Over(f.len),
{
}

/// A path with a zero byte anywhere cannot be handed over, and any other can.
pub proof fn lemma_zero_bytes_spoil_paths(a: Seq<u8>, b: Seq<u8>)
    ensures
        has_nul(a + b) <==> has_nul(a) || has_nul(b),
        has_nul(a + seq![0u8] + b),
        !has_nul(Seq::empty()),
        forall|x: u8| has_nul(#[trigger] seq![x]) <==> x == 0,
{
    let s = a + b;
    if has_nul(a) {
        let i = choose|i: int| 0 <= i < a.len() && a[i] == 0;
        assert(s[i] == 0);
    }
    if has_nul(b) {
        let i = choose|i: int| 0 <= i < b.len() && b[i] == 0;
        assert(s[a.len() + i] == 0);
    }
    if has_nul(s) {
        let i = choose|i: int| 0 <= i < s.len() && s[i] == 0;
        if i < a.len() {
            assert(a[i] == 0);
        } else {
            assert(b[i - a.len()] == 0);
        }
    }
    assert((a + seq![0u8] + b)[a.len() as int] == 0);
    assert forall|x: u8| has_nul(#[trigger] seq![x]) <==> x == 0 by {
        assert(seq![x][0] == x);
    }
}

} // verus!
