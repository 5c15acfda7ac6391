//! The measuring programs: how long they send, receive and answer.

use vstd::prelude::*;

use crate::bytes;

verus! {

/// The bytes of one write.
pub const CHUNK: usize = 0x1_0000;

/// The bytes of a whole throughput run.
pub const TOTAL: usize = 0x1000_0000;

/// The rounds of a latency run that do not count.
pub const WARMUP: usize = 2_000;

/// The rounds of a latency run that count.
pub const ROUNDS: usize = 100_000;

/// The bytes of a message of a latency run.
pub const MESSAGE_LEN: usize = 8;

/// The bytes of a throughput run.
pub const FILLER: u8 = 0x5A;

/// The bytes of a latency run.
pub const PING: u8 = 0xA5;

/// The pause after a marker that did not come whole, in milliseconds.
pub const MARKER_PAUSE_MS: u64 = 1;

/// The marker with which a throughput run starts: `GOSTART!`.
pub open spec fn go_marker() -> Seq<u8> {
    seq![71u8, 79u8, 83u8, 84u8, 65u8, 82u8, 84u8, 33u8]
}

/// The marker with which a throughput run starts.
pub fn go_bytes() -> (r: [u8; 8])
    ensures
        r@ == go_marker(),
{
    let r: [u8; 8] = [71u8, 79u8, 83u8, 84u8, 65u8, 82u8, 84u8, 33u8];
    assert(r@ =~= go_marker());
    r
}

/// Whether `marker` is the one with which a throughput run starts.
fn is_go(marker: &Vec<u8>) -> (r: bool)
    ensures
        r == (marker@ == go_marker()),
{
    if marker.len() != 8 {
        return false;
    }
    let go = go_bytes();
    let mut i: usize = 0;
    while i < 8
        invariant
            i <= 8,
            marker@.len() == 8,
            go@ == go_marker(),
            forall|k: int| 0 <= k < i ==> marker@[k] == go@[k],
        decreases 8 - i,
    {
        if marker[i] != go[i] {
            assert(marker@[i as int] != go_marker()[i as int]);
            return false;
        }
        i += 1;
    }
    assert(marker@ =~= go_marker());
    true
}

/// The kind of channel over which a run goes.
#[derive(Debug, Clone, Copy, PartialEq, Eq, Structural)]
pub enum Carrier {
    /// A read gives what there is; nothing read means nothing.
    Memory,
    /// The marker is read whole; nothing read is the end.
    Pipe,
}

/// What a receiver does next.
#[derive(Debug, Clone, Copy, PartialEq, Eq, Structural)]
pub enum ReceiveStep {
    /// Read up to this many bytes of the marker.
    ReadMarker(usize),
    /// The marker is wrong: leave.
    BadMarker,
    /// Read up to this many bytes.
    Read(usize),
    /// Report, and leave.
    Report,
    /// Leave.
    Quit,
}

/// A throughput run as its receiver sees it.
pub struct ReceiveRun {
    pub carrier: Carrier,
    pub marker: Vec<u8>,
    pub got: usize,
    pub ended: bool,
}

/// What a receiver does next, given what it has.
pub open spec fn receive_step(
    carrier: Carrier,
    marker: Seq<u8>,
    got: nat,
    ended: bool,
    term: bool,
) -> ReceiveStep {
    if marker.len() < 8 {
        if term {
            ReceiveStep::Quit
        } else {
            ReceiveStep::ReadMarker((8 - marker.len()) as usize)
        }
    } else if marker != go_marker() {
        ReceiveStep::BadMarker
    } else if got >= TOTAL || ended || term {
        ReceiveStep::Report
    } else {
        ReceiveStep::Read(
            match carrier {
                Carrier::Memory => bytes::least((TOTAL - got) as nat, CHUNK as nat) as usize,
                Carrier::Pipe => CHUNK,
            },
        )
    }
}

impl ReceiveRun {
    pub open spec fn inv(&self) -> bool {
        &&& self.marker@.len() <= 8
        &&& self.got <= TOTAL + CHUNK
        &&& self.carrier is Memory ==> self.got <= TOTAL
        &&& self.marker@.len() < 8 ==> self.got == 0 && !self.ended
    }

    pub fn new(carrier: Carrier) -> (r: Self)
        ensures
            r.inv(),
            r.carrier == carrier,
            r.marker@ == Seq::<u8>::empty(),
            r.got == 0,
            !r.ended,
    {
        ReceiveRun { carrier, marker: Vec::new(), got: 0, ended: false }
    }

    /// What the receiver does next. `term` says whether the process is to end.
    pub fn next(&self, term: bool) -> (r: ReceiveStep)
        requires
            self.inv(),
        ensures
            r == receive_step(self.carrier, self.marker@, self.got as nat, self.ended, term),
    {
        if self.marker.len() < 8 {
            if term {
                return ReceiveStep::Quit;
            }
            return ReceiveStep::ReadMarker(8 - self.marker.len());
        }
        if !is_go(&self.marker) {
            return ReceiveStep::BadMarker;
        }
        if self.got >= TOTAL || self.ended || term {
            return ReceiveStep::Report;
        }
        match self.carrier {
            Carrier::Memory => {
                let need: usize = TOTAL - self.got;
                if need < CHUNK {
                    ReceiveStep::Read(need)
                } else {
                    ReceiveStep::Read(CHUNK)
                }
            },
            Carrier::Pipe => ReceiveStep::Read(CHUNK),
        }
    }

    /// Takes in bytes of the marker. Returns whether to pause before the next read: a pipe's
    /// marker that did not come whole is dropped.
    pub fn marker_read(&mut self, bytes: &[u8]) -> (pause: bool)
        requires
            old(self).inv(),
            old(self).marker@.len() + bytes@.len() <= 8,
        ensures
            final(self).inv(),
            final(self).carrier == old(self).carrier,
            final(self).got == old(self).got,
            final(self).ended == old(self).ended,
            pause == (old(self).carrier is Pipe && bytes@.len() != 8),
            final(self).marker@ == (if pause {
                old(self).marker@
            } else {
                old(self).marker@ + bytes@
            }),
    {
        match self.carrier {
            Carrier::Pipe => {
                if bytes.len() != 8 {
                    return true;
                }
            },
            Carrier::Memory => {},
        }
        let ghost before = self.marker@;
        self.marker.extend_from_slice(bytes);
        assert(self.marker@ =~= before + bytes@);
        false
    }

    /// Takes in that `n` bytes were read.
    pub fn data_read(&mut self, n: usize)
        requires
            old(self).inv(),
            receive_step(
                old(self).carrier,
                old(self).marker@,
                old(self).got as nat,
                old(self).ended,
                false,
            ) matches ReceiveStep::Read(len) && n <= len,
        ensures
            final(self).inv(),
            final(self).carrier == old(self).carrier,
            final(self).marker@ == old(self).marker@,
            final(self).got == old(self).got + n,
            final(self).ended == (old(self).carrier is Pipe && n == 0),
    {
        self.got = self.got + n;
        match self.carrier {
            Carrier::Pipe => {
                self.ended = n == 0;
            },
            Carrier::Memory => {},
        }
    }

    /// What follows on a read that failed: without the marker nothing is reported.
    pub fn failed(&self) -> (r: ReceiveStep)
        ensures
            r == (if self.marker@.len() < 8 {
                ReceiveStep::Quit
            } else {
                ReceiveStep::Report
            }),
    {
        if self.marker.len() < 8 {
            ReceiveStep::Quit
        } else {
            ReceiveStep::Report
        }
    }
}

/// A run over shared memory that is neither ended nor cut short takes exactly what was to be
/// sent: the reads never ask for more than is missing.
pub proof fn lemma_memory_run_is_exact(run: ReceiveRun, n: nat)
    requires
        run.inv(),
        run.carrier is Memory,
        receive_step(run.carrier, run.marker@, run.got as nat, run.ended, false)
            matches ReceiveStep::Read(len) && n <= len,
    ensures
        run.got + n <= TOTAL,
{
}

/// What a sender does next.
#[derive(Debug, Clone, Copy, PartialEq, Eq, Structural)]
pub enum SendStep {
    /// Write the marker.
    WriteMarker,
    /// Write a chunk.
    Write,
    /// Report, and leave.
    Report,
    /// Leave.
    Quit,
}

/// A throughput run as its sender sees it.
#[derive(Debug, Clone, Copy, PartialEq, Eq, Structural)]
pub struct SendRun {
    pub started: bool,
    pub sent: usize,
}

impl SendRun {
    pub open spec fn inv(self) -> bool {
        self.sent <= TOTAL && self.sent % CHUNK == 0 && (!self.started ==> self.sent == 0)
    }

    pub open spec fn step(self, term: bool) -> SendStep {
        if !self.started {
            SendStep::WriteMarker
        } else if self.sent >= TOTAL || term {
            SendStep::Report
        } else {
            SendStep::Write
        }
    }

    pub fn new() -> (r: Self)
        ensures
            r == (SendRun { started: false, sent: 0 }),
            r.inv(),
    {
        SendRun { started: false, sent: 0 }
    }

    /// What the sender does next.
    pub fn next(&self, term: bool) -> (r: SendStep)
        ensures
            r == self.step(term),
    {
        if !self.started {
            SendStep::WriteMarker
        } else if self.sent >= TOTAL || term {
            SendStep::Report
        } else {
            SendStep::Write
        }
    }

    /// Takes in that the write succeeded.
    pub fn wrote(&mut self)
        requires
            old(self).inv(),
            old(self).step(false) is WriteMarker || old(self).step(false) is Write,
        ensures
            final(self).inv(),
            *final(self) == (if old(self).started {
                SendRun { started: true, sent: (old(self).sent + CHUNK) as usize }
            } else {
                SendRun { started: true, sent: 0 }
            }),
    {
        if self.started {
            self.sent = self.sent + CHUNK;
        } else {
            self.started = true;
        }
    }

    /// What follows on a write that failed: without the marker nothing is reported.
    pub fn failed(&self) -> (r: SendStep)
        ensures
            r == (if self.started {
                SendStep::Report
            } else {
                SendStep::Quit
            }),
    {
        if self.started {
            SendStep::Report
        } else {
            SendStep::Quit
        }
    }
}

/// A run that is not cut short sends exactly all bytes, the marker not counted.
pub proof fn lemma_send_run_is_exact(run: SendRun)
    requires
        run.inv(),
        run.started,
        run.step(false) is Report,
    ensures
        run.sent == TOTAL,
{
}

/// What a side of a latency run does next.
#[derive(Debug, Clone, Copy, PartialEq, Eq, Structural)]
pub enum RoundStep {
    /// One more round; `timed` says whether it counts.
    Round { timed: bool },
    /// Report, and leave.
    Report,
    /// Leave.
    Quit,
}

/// A latency run.
#[derive(Debug, Clone, Copy, PartialEq, Eq, Structural)]
pub struct RoundRun {
    pub done: usize,
}

impl RoundRun {
    pub open spec fn inv(self) -> bool {
        self.done <= WARMUP + ROUNDS
    }

    /// The next step of the side that asks.
    pub open spec fn client_step(self, term: bool) -> RoundStep {
        if self.done < WARMUP {
            if term {
                RoundStep::Quit
            } else {
                RoundStep::Round { timed: false }
            }
        } else if self.done < WARMUP + ROUNDS && !term {
            RoundStep::Round { timed: true }
        } else {
            RoundStep::Report
        }
    }

    /// The next step of the side that answers.
    pub open spec fn server_step(self, term: bool) -> RoundStep {
        if self.done < WARMUP + ROUNDS && !term {
            RoundStep::Round { timed: self.done >= WARMUP }
        } else {
            RoundStep::Report
        }
    }

    pub fn new() -> (r: Self)
        ensures
            r == (RoundRun { done: 0 }),
            r.inv(),
    {
        RoundRun { done: 0 }
    }

    /// What the side that asks does next.
    pub fn next_ask(&self, term: bool) -> (r: RoundStep)
        ensures
            r == self.client_step(term),
    {
        if self.done < WARMUP {
            if term {
                RoundStep::Quit
            } else {
                RoundStep::Round { timed: false }
            }
        } else if self.done < WARMUP + ROUNDS && !term {
            RoundStep::Round { timed: true }
        } else {
            RoundStep::Report
        }
    }

    /// What the side that answers does next.
    pub fn next_answer(&self, term: bool) -> (r: RoundStep)
        ensures
            r == self.server_step(term),
    {
        if self.done < WARMUP + ROUNDS && !term {
            RoundStep::Round { timed: self.done >= WARMUP }
        } else {
            RoundStep::Report
        }
    }

    /// Takes in a round, in which `n` bytes came back. Returns whether it was a whole message.
    pub fn round_done(&mut self, n: usize) -> (whole: bool)
        requires
            old(self).inv(),
            old(self).done < WARMUP + ROUNDS,
        ensures
            final(self).inv(),
            whole == (n == MESSAGE_LEN),
            final(self).done == old(self).done + (if whole {
                1int
            } else {
                0
            }),
    {
        if n == MESSAGE_LEN {
            self.done = self.done + 1;
            true
        } else {
            false
        }
    }

    /// What follows for the side that asks on a round that failed: a failure before the rounds
    /// that count leaves nothing to report.
    pub fn failed(&self) -> (r: RoundStep)
        ensures
            r == (if self.done < WARMUP {
                RoundStep::Quit
            } else {
                RoundStep::Report
            }),
    {
        if self.done < WARMUP {
            RoundStep::Quit
        } else {
            RoundStep::Report
        }
    }
}

/// Both sides of a latency run go through the same rounds.
pub proof fn lemma_sides_agree(run: RoundRun)
    ensures
        run.client_step(false) == run.server_step(false),
{
}

/// What a program that takes a given number of turns does next.
#[derive(Debug, Clone, Copy, PartialEq, Eq, Structural)]
pub enum CountedStep {
    /// Take the turn with this number.
    Turn(u32),
    /// Pause for this many milliseconds.
    Pause(u64),
    /// Report, and leave.
    Report,
}

/// What came of a turn or a pause.
#[derive(Debug, Clone, Copy, PartialEq, Eq, Structural)]
pub enum CountedEvent {
    /// The turn succeeded.
    Taken,
    /// The turn failed.
    Failed,
    /// The pause is over.
    Paused,
}

/// A run of `count` turns with pauses of `interval_ms` between them.
#[derive(Debug, Clone, Copy, PartialEq, Eq, Structural)]
pub struct CountedRun {
    pub count: u32,
    pub interval_ms: u64,
    /// The turns that succeeded.
    pub taken: u32,
    pub pausing: bool,
    pub failed: bool,
}

impl CountedRun {
    pub open spec fn inv(self) -> bool {
        &&& self.taken <= self.count
        &&& self.pausing ==> self.interval_ms > 0 && 0 < self.taken < self.count && !self.failed
    }

    /// The next step. `term` says whether the process is to end, which it does between turns.
    pub open spec fn step(self, term: bool) -> CountedStep {
        if self.pausing {
            CountedStep::Pause(self.interval_ms)
        } else if self.failed || self.taken >= self.count || term {
            CountedStep::Report
        } else {
            CountedStep::Turn(self.taken)
        }
    }

    /// The event can follow on the step of this run.
    pub open spec fn expects(self, event: CountedEvent) -> bool {
        match event {
            CountedEvent::Taken | CountedEvent::Failed => self.step(false) is Turn,
            CountedEvent::Paused => self.step(false) is Pause,
        }
    }

    /// The run after the event.
    pub open spec fn after(self, event: CountedEvent) -> CountedRun {
        match event {
            CountedEvent::Taken => CountedRun {
                taken: (self.taken + 1) as u32,
                pausing: self.interval_ms > 0 && self.taken + 1 < self.count,
                ..self
            },
            CountedEvent::Failed => CountedRun { failed: true, ..self },
            CountedEvent::Paused => CountedRun { pausing: false, ..self },
        }
    }

    /// A run of which no turn has been taken.
    pub open spec fn start(count: u32, interval_ms: u64) -> CountedRun {
        CountedRun { count, interval_ms, taken: 0, pausing: false, failed: false }
    }

    pub fn new(count: u32, interval_ms: u64) -> (r: Self)
        ensures
            r == CountedRun::start(count, interval_ms),
            r.inv(),
    {
        CountedRun { count, interval_ms, taken: 0, pausing: false, failed: false }
    }

    /// What the program does next.
    pub fn next(&self, term: bool) -> (r: CountedStep)
        ensures
            r == self.step(term),
    {
        if self.pausing {
            CountedStep::Pause(self.interval_ms)
        } else if self.failed || self.taken >= self.count || term {
            CountedStep::Report
        } else {
            CountedStep::Turn(self.taken)
        }
    }

    /// Takes in what came of a step.
    pub fn advance(&mut self, event: CountedEvent)
        requires
            old(self).inv(),
            old(self).expects(event),
        ensures
            final(self).inv(),
            *final(self) == old(self).after(event),
    {
        match event {
            CountedEvent::Taken => {
                self.taken = self.taken + 1;
                self.pausing = self.interval_ms > 0 && self.taken < self.count;
            },
            CountedEvent::Failed => {
                self.failed = true;
            },
            CountedEvent::Paused => {
                self.pausing = false;
            },
        }
    }
}

/// The events can follow on each other in a run that starts anew.
pub open spec fn counted_history(count: u32, interval_ms: u64, events: Seq<CountedEvent>) -> bool
    decreases events.len(),
{
    events.len() > 0 ==> {
        &&& counted_history(count, interval_ms, events.drop_last())
        &&& counted_after(count, interval_ms, events.drop_last()).expects(events.last())
    }
}

/// The run after the events.
pub open spec fn counted_after(count: u32, interval_ms: u64, events: Seq<CountedEvent>) -> CountedRun
    decreases events.len(),
{
    if events.len() == 0 {
        CountedRun::start(count, interval_ms)
    } else {
        counted_after(count, interval_ms, events.drop_last()).after(events.last())
    }
}

/// The numbers of the turns that succeeded, in their order.
pub open spec fn turns_taken(count: u32, interval_ms: u64, events: Seq<CountedEvent>) -> Seq<u32>
    decreases events.len(),
{
    if events.len() == 0 {
        Seq::empty()
    } else {
        let before = turns_taken(count, interval_ms, events.drop_last());
        match (events.last(), counted_after(count, interval_ms, events.drop_last()).step(false)) {
            (CountedEvent::Taken, CountedStep::Turn(number)) => before.push(number),
            _ => before,
        }
    }
}

/// Turns are taken one by one from the first on; a run that reports without having failed or
/// been cut short has taken them all.
pub proof fn lemma_turns_in_order(count: u32, interval_ms: u64, events: Seq<CountedEvent>)
    requires
        counted_history(count, interval_ms, events),
    ensures
        ({
            let run = counted_after(count, interval_ms, events);
            &&& run.inv()
            &&& run.count == count
            &&& turns_taken(count, interval_ms, events) == Seq::new(
                run.taken as nat,
                |i: int| i as u32,
            )
            &&& run.step(false) is Report && !run.failed ==> run.taken == count
        }),
    decreases events.len(),
{
    if events.len() > 0 {
        lemma_turns_in_order(count, interval_ms, events.drop_last());
        let run = counted_after(count, interval_ms, events);
        assert(turns_taken(count, interval_ms, events) =~= Seq::new(
            run.taken as nat,
            |i: int| i as u32,
        ));
    } else {
        assert(turns_taken(count, interval_ms, events) =~= Seq::new(0, |i: int| i as u32));
    }
}

/// What a program that answers every interrupt does next.
#[derive(Debug, Clone, Copy, PartialEq, Eq, Structural)]
pub enum EchoStep {
    /// Wait for an interrupt.
    Wait,
    /// Answer it.
    Answer,
    /// Leave.
    Leave,
}

/// What came of a step of such a program.
#[derive(Debug, Clone, Copy, PartialEq, Eq, Structural)]
pub enum EchoEvent {
    /// An interrupt came.
    Came,
    /// The wait failed.
    Failed,
    /// The answer was sent.
    Answered,
}

/// A program that answers every interrupt.
#[derive(Debug, Clone, Copy, PartialEq, Eq, Structural)]
pub struct EchoRun {
    /// An interrupt came that has no answer yet.
    pub owing: bool,
    pub failed: bool,
}

impl EchoRun {
    /// The next step. The process ends only when no answer is owed.
    pub open spec fn step(self, term: bool) -> EchoStep {
        if self.owing {
            EchoStep::Answer
        } else if self.failed || term {
            EchoStep::Leave
        } else {
            EchoStep::Wait
        }
    }

    /// The event can follow on the step of this run.
    pub open spec fn expects(self, event: EchoEvent) -> bool {
        match event {
            EchoEvent::Came | EchoEvent::Failed => self.step(false) is Wait,
            EchoEvent::Answered => self.step(false) is Answer,
        }
    }

    /// The run after the event.
    pub open spec fn after(self, event: EchoEvent) -> EchoRun {
        match event {
            EchoEvent::Came => EchoRun { owing: true, ..self },
            EchoEvent::Failed => EchoRun { failed: true, ..self },
            EchoEvent::Answered => EchoRun { owing: false, ..self },
        }
    }

    pub fn new() -> (r: Self)
        ensures
            r == (EchoRun { owing: false, failed: false }),
    {
        EchoRun { owing: false, failed: false }
    }

    /// What the program does next.
    pub fn next(&self, term: bool) -> (r: EchoStep)
        ensures
            r == self.step(term),
    {
        if self.owing {
            EchoStep::Answer
        } else if self.failed || term {
            EchoStep::Leave
        } else {
            EchoStep::Wait
        }
    }

    /// Takes in what came of a step.
    pub fn advance(&mut self, event: EchoEvent)
        requires
            old(self).expects(event),
        ensures
            *final(self) == old(self).after(event),
    {
        match event {
            EchoEvent::Came => {
                self.owing = true;
            },
            EchoEvent::Failed => {
                self.failed = true;
            },
            EchoEvent::Answered => {
                self.owing = false;
            },
        }
    }
}

/// The events can follow on each other in a program that starts anew.
pub open spec fn echo_history(events: Seq<EchoEvent>) -> bool
    decreases events.len(),
{
    events.len() > 0 ==> {
        &&& echo_history(events.drop_last())
        &&& echo_after(events.drop_last()).expects(events.last())
    }
}

/// The program after the events.
pub open spec fn echo_after(events: Seq<EchoEvent>) -> EchoRun
    decreases events.len(),
{
    if events.len() == 0 {
        EchoRun { owing: false, failed: false }
    } else {
        echo_after(events.drop_last()).after(events.last())
    }
}

/// How often `event` stands among the events.
pub open spec fn times(events: Seq<EchoEvent>, event: EchoEvent) -> nat
    decreases events.len(),
{
    if events.len() == 0 {
        0
    } else {
        times(events.drop_last(), event) + if events.last() == event {
            1nat
        } else {
            0nat
        }
    }
}

/// Every interrupt gets one answer before the program waits again or leaves.
pub proof fn lemma_every_interrupt_is_answered(events: Seq<EchoEvent>, term: bool)
    requires
        echo_history(events),
    ensures
        times(events, EchoEvent::Came) == times(events, EchoEvent::Answered) + if echo_after(
            events,
        ).step(term) is Answer {
            1nat
        } else {
            0nat
        },
    decreases events.len(),
{
    if events.len() > 0 {
        lemma_every_interrupt_is_answered(events.drop_last(), term);
    }
}

/// A run starts with eight bytes, `GOSTART!`; until all eight are there only they are read, and
/// with any others the run does not take place.
pub proof fn lemma_marker_comes_first(
    carrier: Carrier,
    marker: Seq<u8>,
    got: nat,
    ended: bool,
    term: bool,
)
    requires
        marker.len() <= 8,
    ensures
        ({
            let step = receive_step(carrier, marker, got, ended, term);
            &&& step is Quit <==> marker.len() < 8 && term
            &&& step is ReadMarker <==> marker.len() < 8 && !term
            &&& step matches ReceiveStep::ReadMarker(n) ==> n + marker.len() == 8
            &&& step is BadMarker <==> marker.len() == 8 && marker != go_marker()
            &&& step is Read || step is Report ==> {
                &&& marker[0] == 71 && marker[1] == 79 && marker[2] == 83 && marker[3] == 84
                &&& marker[4] == 65 && marker[5] == 82 && marker[6] == 84 && marker[7] == 33
            }
        }),
{
}

/// Behind the marker a receiver reads until all 256 MiB came, the stream ended or the process is
/// to end; it reads 64 KiB at a time, from memory no more than is missing.
pub proof fn lemma_receiver_reads_to_the_end(carrier: Carrier, got: nat, ended: bool, term: bool)
    ensures
        ({
            let step = receive_step(carrier, go_marker(), got, ended, term);
            &&& step is Report <==> got >= 268435456 || ended || term
            &&& step is Read <==> got < 268435456 && !ended && !term
            &&& step matches ReceiveStep::Read(n) ==> match carrier {
                Carrier::Pipe => n == 65536,
                Carrier::Memory => 0 < n <= 65536 && got + n <= 268435456 && (n == 65536 || got + n
                    == 268435456),
            }
        }),
{
}

/// A sender writes the marker once and first, then chunks until all 256 MiB are out or the process
/// is to end.
pub proof fn lemma_sender_writes_to_the_end(run: SendRun, term: bool)
    ensures
        run.step(term) is WriteMarker <==> !run.started,
        run.step(term) is Write <==> run.started && run.sent < 268435456 && !term,
        run.step(term) is Report <==> run.started && (run.sent >= 268435456 || term),
        !(run.step(term) is Quit),
        CHUNK == 65536 && FILLER == 0x5A && MARKER_PAUSE_MS == 1,
{
}

/// A latency run has 2000 rounds that do not count and 100000 that do, in this order. The side
/// that asks has nothing to report before the first that counts.
pub proof fn lemma_rounds_count_behind_warm_up(run: RoundRun, term: bool)
    ensures
        run.client_step(term) == (RoundStep::Round { timed: false }) <==> run.done < 2000 && !term,
        run.client_step(term) == (RoundStep::Round { timed: true }) <==> 2000 <= run.done < 102000
            && !term,
        run.client_step(term) is Quit <==> run.done < 2000 && term,
        run.client_step(term) is Report <==> run.done >= 102000 || (run.done >= 2000 && term),
        run.server_step(term) == (RoundStep::Round { timed: false }) <==> run.done < 2000 && !term,
        run.server_step(term) == (RoundStep::Round { timed: true }) <==> 2000 <= run.done < 102000
            && !term,
        run.server_step(term) is Report <==> run.done >= 102000 || term,
        MESSAGE_LEN == 8 && PING == 0xA5,
{
}

/// A program with a given number of turns pauses only between two of them and only if it was
/// asked to, goes on until all are taken or one fails, and ends between turns if the process is
/// to end.
pub proof fn lemma_turns_have_their_time(run: CountedRun, term: bool)
    requires
        run.inv(),
    ensures
        run.step(term) is Pause <==> run.pausing,
        run.step(term) matches CountedStep::Pause(ms) ==> ms == run.interval_ms && 0 < run.taken
            < run.count,
        run.step(term) is Turn <==> !run.pausing && !run.failed && run.taken < run.count && !term,
        run.step(term) matches CountedStep::Turn(i) ==> i == run.taken,
        run.step(term) is Report <==> !run.pausing && (run.failed || run.taken == run.count || term),
{
}

/// A turn that succeeds counts and is followed by a pause unless it was the last or none was asked
/// for; one that fails does not count and ends the run; a pause only ends itself.
pub proof fn lemma_turns_move_the_run_on(run: CountedRun, count: u32, interval_ms: u64)
    requires
        run.inv(),
        run.taken < run.count,
    ensures
        ({
            let t = run.after(CountedEvent::Taken);
            &&& t.taken == run.taken + 1
            &&& t.pausing <==> run.interval_ms > 0 && run.taken + 1 < run.count
            &&& t.failed == run.failed && t.count == run.count && t.interval_ms == run.interval_ms
        }),
        run.after(CountedEvent::Failed) == (CountedRun { failed: true, ..run }),
        run.after(CountedEvent::Paused) == (CountedRun { pausing: false, ..run }),
        ({
            let s = CountedRun::start(count, interval_ms);
            s.count == count && s.interval_ms == interval_ms && s.taken == 0 && !s.pausing
                && !s.failed
        }),
{
}

/// A program that answers waits when it owes nothing, answers before anything else, and leaves
/// only without owing and after a failure or at the end of the process.
pub proof fn lemma_answers_come_first(run: EchoRun, term: bool)
    ensures
        run.step(term) is Answer <==> run.owing,
        run.step(term) is Leave <==> !run.owing && (run.failed || term),
        run.step(term) is Wait <==> !run.owing && !run.failed && !term,
        run.after(EchoEvent::Came).owing,
        !run.after(EchoEvent::Answered).owing,
        run.after(EchoEvent::Failed).failed,
        run.after(EchoEvent::Came).failed == run.failed,
        run.after(EchoEvent::Answered).failed == run.failed,
        run.after(EchoEvent::Failed).owing == run.owing,
{
}

} // verus!
