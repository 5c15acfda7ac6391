//! The bridge from user interrupts to waiting tasks.
//!
//! A token counts the interrupts that arrived and remembers how many of them its waiter has
//! seen. The waiter leaves its waker with the token. `W` is the waker type.

use vstd::prelude::*;

use crate::poll::Polled;

verus! {

/// A token for one source of interrupts.
pub struct UintrToken<W> {
    pub inner: Inner<W>,
    pub name: String,
}

/// The counters and the waker slot of a token.
#[verifier::ext_equal]
pub struct Inner<W> {
    /// Interrupts that arrived; wraps around.
    pub seq: u32,
    /// The value of `seq` that the waiter saw last.
    pub consumed_seq: u32,
    /// The waker to wake on the next interrupt.
    pub waker: Option<W>,
}

/// Whether an interrupt arrived that the waiter has not seen.
pub fn has_pending(seq: u32, consumed_seq: u32) -> (r: bool)
    ensures
        r == (seq != consumed_seq),
{
    seq != consumed_seq
}

/// What the interrupt handler does next.
#[derive(Debug, Clone, Copy, PartialEq, Eq, Structural)]
pub enum SignalStep {
    /// Count the interrupt.
    Count,
    /// Look for a waker.
    Find,
    /// Wake it, and leave it where it is.
    Wake,
    /// Raise the flag that ends the processor's sleep.
    Raise,
    Done,
}

impl SignalStep {
    /// The first step, with a token to signal or without.
    pub open spec fn start(token: bool) -> SignalStep {
        if token {
            SignalStep::Count
        } else {
            SignalStep::Raise
        }
    }

    /// The step after this one. `found` says whether there is a waker.
    pub open spec fn after(self, found: bool) -> SignalStep {
        match self {
            SignalStep::Count => SignalStep::Find,
            SignalStep::Find => if found {
                SignalStep::Wake
            } else {
                SignalStep::Raise
            },
            SignalStep::Wake => SignalStep::Raise,
            SignalStep::Raise | SignalStep::Done => SignalStep::Done,
        }
    }

    /// The first step, with a token to signal or without.
    pub fn first(token: bool) -> (r: Self)
        ensures
            r == SignalStep::start(token),
    {
        if token {
            SignalStep::Count
        } else {
            SignalStep::Raise
        }
    }

    /// The step after this one. `found` says whether there is a waker.
    pub fn next(self, found: bool) -> (r: Self)
        ensures
            r == self.after(found),
    {
        match self {
            SignalStep::Count => SignalStep::Find,
            SignalStep::Find => {
                if found {
                    SignalStep::Wake
                } else {
                    SignalStep::Raise
                }
            },
            SignalStep::Wake => SignalStep::Raise,
            SignalStep::Raise | SignalStep::Done => SignalStep::Done,
        }
    }
}

/// What a waiter that offers its waker does next.
#[derive(Debug, Clone, Copy, PartialEq, Eq, Structural)]
pub enum RegisterStep {
    /// Look whether the slot is empty.
    Look,
    /// Put the waker in, if the slot is still empty.
    Install,
    /// Drop the waker: another one is there.
    Discard,
    Done,
}

impl RegisterStep {
    /// The step after this one. `empty` says whether the slot was found empty.
    pub open spec fn after(self, empty: bool) -> RegisterStep {
        match self {
            RegisterStep::Look => if empty {
                RegisterStep::Install
            } else {
                RegisterStep::Discard
            },
            RegisterStep::Install => if empty {
                RegisterStep::Done
            } else {
                RegisterStep::Discard
            },
            RegisterStep::Discard | RegisterStep::Done => RegisterStep::Done,
        }
    }

    /// The step after this one. `empty` says whether the slot was found empty.
    pub fn next(self, empty: bool) -> (r: Self)
        ensures
            r == self.after(empty),
    {
        match self {
            RegisterStep::Look => {
                if empty {
                    RegisterStep::Install
                } else {
                    RegisterStep::Discard
                }
            },
            RegisterStep::Install => {
                if empty {
                    RegisterStep::Done
                } else {
                    RegisterStep::Discard
                }
            },
            RegisterStep::Discard | RegisterStep::Done => RegisterStep::Done,
        }
    }
}

impl<W> Inner<W> {
    /// An interrupt arrived that the waiter has not seen.
    pub open spec fn pending(self) -> bool {
        self.seq != self.consumed_seq
    }

    /// The interrupts that arrived and that the waiter has not seen.
    pub open spec fn unseen(self) -> nat {
        self.seq.wrapping_sub(self.consumed_seq) as nat
    }

    /// The state after an interrupt.
    pub open spec fn after_interrupt(self) -> Inner<W> {
        Inner { seq: self.seq.wrapping_add(1), ..self }
    }

    /// The state after the waiter has seen all interrupts.
    pub open spec fn after_consume(self) -> Inner<W> {
        Inner { consumed_seq: self.seq, waker: None, ..self }
    }

    /// The state after `waker` was offered to the slot.
    pub open spec fn after_register(self, waker: W) -> Inner<W> {
        if self.waker is None {
            Inner { waker: Some(waker), ..self }
        } else {
            self
        }
    }
}

impl<W> UintrToken<W> {
    /// A token that has seen no interrupt and has no waiter.
    pub fn new(name: &str) -> (r: Self)
        ensures
            r.inner == (Inner::<W> { seq: 0, consumed_seq: 0, waker: None }),
            r.name@ == name@,
    {
        UintrToken {
            inner: Inner { seq: 0, consumed_seq: 0, waker: None },
            name: name.to_owned(),
        }
    }

    /// Counts an interrupt. Returns whether there is a waker, which is to be woken and stays.
    pub fn set_pending(&mut self) -> (wake: bool)
        ensures
            final(self).inner == old(self).inner.after_interrupt(),
            final(self).name == old(self).name,
            wake == (old(self).inner.waker is Some),
    {
        let mut step = SignalStep::first(true);
        let mut found = false;
        while step == SignalStep::Count || step == SignalStep::Find
            invariant
                self.name == old(self).name,
                match step {
                    SignalStep::Count => self.inner == old(self).inner,
                    SignalStep::Find => self.inner == old(self).inner.after_interrupt(),
                    SignalStep::Wake => self.inner == old(self).inner.after_interrupt()
                        && self.inner.waker is Some,
                    SignalStep::Raise => self.inner == old(self).inner.after_interrupt()
                        && self.inner.waker is None,
                    SignalStep::Done => false,
                },
            decreases
                    if step is Count {
                        2int
                    } else if step is Find {
                        1
                    } else {
                        0
                    },
        {
            if step == SignalStep::Count {
                self.inner.seq = self.inner.seq.wrapping_add(1);
            } else {
                found = self.inner.waker.is_some();
            }
            step = step.next(found);
        }
        step == SignalStep::Wake
    }

    /// Leaves a waker. A waker that is already there is kept.
    pub fn register_waker(&mut self, waker: W)
        ensures
            final(self).inner == old(self).inner.after_register(waker),
            final(self).name == old(self).name,
    {
        let step = RegisterStep::Look.next(self.inner.waker.is_none());
        if step == RegisterStep::Install {
            self.inner.waker = Some(waker);
        }
    }

    /// Takes the waker out.
    pub fn clear_waker(&mut self)
        ensures
            final(self).inner == (Inner { waker: None, ..old(self).inner }),
            final(self).name == old(self).name,
    {
        self.inner.waker = None;
    }
}

/// What a waiter does next.
#[derive(Debug, Clone, Copy, PartialEq, Eq, Structural)]
pub enum WaitStep {
    /// Read the two counters.
    Look,
    /// Leave the waker with the token.
    Register,
    /// Store this count as seen.
    See(u32),
    /// Take the waker out.
    Clear,
    /// There was an interrupt: go on.
    Ready,
    /// There was none: wait to be woken.
    Pending,
}

/// What came of a waiter's step.
#[derive(Debug, Clone, Copy, PartialEq, Eq, Structural)]
pub enum WaitEvent {
    /// The counters read so.
    Looked { seq: u32, consumed_seq: u32 },
    /// The waker is with the token.
    Registered,
    /// The count is stored.
    Seen,
    /// The waker is out.
    Cleared,
}

/// One poll of a waiter. An interrupt may break in between any two of its steps.
#[derive(Debug, Clone, Copy, PartialEq, Eq, Structural)]
pub struct WaitSession {
    pub step: WaitStep,
    /// The waker has been left with the token.
    pub registered: bool,
}

impl WaitSession {
    /// A poll that has not begun.
    pub open spec fn start() -> WaitSession {
        WaitSession { step: WaitStep::Look, registered: false }
    }

    /// The event can follow on the step of this poll.
    pub open spec fn expects(self, event: WaitEvent) -> bool {
        match event {
            WaitEvent::Looked { .. } => self.step is Look,
            WaitEvent::Registered => self.step is Register,
            WaitEvent::Seen => self.step is See,
            WaitEvent::Cleared => self.step is Clear,
        }
    }

    /// The poll after the event: it looks before it leaves its waker, and once more afterwards.
    pub open spec fn after(self, event: WaitEvent) -> WaitSession {
        match event {
            WaitEvent::Looked { seq, consumed_seq } => WaitSession {
                step: if seq != consumed_seq {
                    WaitStep::See(seq)
                } else if self.registered {
                    WaitStep::Pending
                } else {
                    WaitStep::Register
                },
                ..self
            },
            WaitEvent::Registered => WaitSession { step: WaitStep::Look, registered: true },
            WaitEvent::Seen => WaitSession { step: WaitStep::Clear, ..self },
            WaitEvent::Cleared => WaitSession { step: WaitStep::Ready, ..self },
        }
    }

    /// The steps that are left at most.
    pub open spec fn steps_left(self) -> nat {
        match self.step {
            WaitStep::Look => if self.registered {
                3
            } else {
                5
            },
            WaitStep::Register => 4,
            WaitStep::See(_) => 2,
            WaitStep::Clear => 1,
            WaitStep::Ready | WaitStep::Pending => 0,
        }
    }

    pub fn new() -> (r: Self)
        ensures
            r == WaitSession::start(),
    {
        WaitSession { step: WaitStep::Look, registered: false }
    }

    /// Takes in what came of a step.
    pub fn advance(&mut self, event: WaitEvent)
        requires
            old(self).expects(event),
        ensures
            *final(self) == old(self).after(event),
    {
        match event {
            WaitEvent::Looked { seq, consumed_seq } => {
                if has_pending(seq, consumed_seq) {
                    self.step = WaitStep::See(seq);
                } else if self.registered {
                    self.step = WaitStep::Pending;
                } else {
                    self.step = WaitStep::Register;
                }
            },
            WaitEvent::Registered => {
                self.step = WaitStep::Look;
                self.registered = true;
            },
            WaitEvent::Seen => {
                self.step = WaitStep::Clear;
            },
            WaitEvent::Cleared => {
                self.step = WaitStep::Ready;
            },
        }
    }
}

/// Waits for an interrupt that has not been seen.
pub struct UintrFuture<W> {
    pub token: UintrToken<W>,
}

/// The state after a poll that no interrupt breaks into.
pub open spec fn after_poll<W>(inner: Inner<W>, waker: W) -> Inner<W> {
    if inner.pending() {
        inner.after_consume()
    } else {
        inner.after_register(waker)
    }
}

impl<W> UintrFuture<W> {
    /// Looks for an interrupt, leaves the waker if there is none, and looks again.
    pub fn poll(&mut self, waker: W) -> (r: Polled<()>)
        ensures
            r == (if old(self).token.inner.pending() {
                Polled::Ready(())
            } else {
                Polled::Pending
            }),
            final(self).token.inner == after_poll(old(self).token.inner, waker),
            final(self).token.name == old(self).token.name,
    {
        let ghost start = self.token.inner;
        let ghost offered = waker;
        let mut offer = Some(waker);
        let mut session = WaitSession::new();
        loop
            invariant
                self.token.name == old(self).token.name,
                start == old(self).token.inner,
                offered == waker,
                !session.registered ==> offer == Some(offered),
                match session.step {
                    WaitStep::Look => if session.registered {
                        !start.pending() && self.token.inner == start.after_register(offered)
                    } else {
                        self.token.inner == start
                    },
                    WaitStep::Register => !session.registered && !start.pending()
                        && self.token.inner == start,
                    WaitStep::See(seq) => start.pending() && self.token.inner == start && seq
                        == start.seq,
                    WaitStep::Clear => start.pending() && self.token.inner == (Inner {
                        consumed_seq: start.seq,
                        ..start
                    }),
                    WaitStep::Ready => start.pending() && self.token.inner
                        == start.after_consume(),
                    WaitStep::Pending => !start.pending() && self.token.inner
                        == start.after_register(offered),
                },
            decreases session.steps_left(),
        {
            match session.step {
                WaitStep::Look => {
                    let seq = self.token.inner.seq;
                    let consumed_seq = self.token.inner.consumed_seq;
                    session.advance(WaitEvent::Looked { seq, consumed_seq });
                },
                WaitStep::Register => {
                    if let Some(waker) = offer.take() {
                        self.token.register_waker(waker);
                    }
                    session.advance(WaitEvent::Registered);
                },
                WaitStep::See(seq) => {
                    self.token.inner.consumed_seq = seq;
                    session.advance(WaitEvent::Seen);
                },
                WaitStep::Clear => {
                    self.token.clear_waker();
                    session.advance(WaitEvent::Cleared);
                },
                WaitStep::Ready => {
                    return Polled::Ready(());
                },
                WaitStep::Pending => {
                    return Polled::Pending;
                },
            }
        }
    }
}

/// What happens next to a poll.
#[derive(Debug, Clone, Copy, PartialEq, Eq, Structural)]
pub enum Move {
    /// The waiter takes its next step.
    Step,
    /// An interrupt breaks in.
    Interrupt,
}

/// A poll under way, and the token it waits on.
#[verifier::ext_equal]
pub struct Waiting<W> {
    pub inner: Inner<W>,
    pub session: WaitSession,
    /// An interrupt found a waker and woke it.
    pub woken: bool,
    /// The interrupts since the waiter last read the counters.
    pub late: nat,
}

impl<W> Waiting<W> {
    /// A poll that has not begun.
    pub open spec fn start(inner: Inner<W>) -> Waiting<W> {
        Waiting { inner, session: WaitSession::start(), woken: false, late: 0 }
    }

    /// The poll after an interrupt.
    pub open spec fn interrupted(self) -> Waiting<W> {
        Waiting {
            inner: self.inner.after_interrupt(),
            woken: self.woken || self.inner.waker is Some,
            late: self.late + 1,
            ..self
        }
    }

    /// The poll after its next step.
    pub open spec fn stepped(self, waker: W) -> Waiting<W> {
        match self.session.step {
            WaitStep::Look => Waiting {
                session: self.session.after(
                    WaitEvent::Looked {
                        seq: self.inner.seq,
                        consumed_seq: self.inner.consumed_seq,
                    },
                ),
                late: 0,
                ..self
            },
            WaitStep::Register => Waiting {
                inner: self.inner.after_register(waker),
                session: self.session.after(WaitEvent::Registered),
                ..self
            },
            WaitStep::See(seq) => Waiting {
                inner: Inner { consumed_seq: seq, ..self.inner },
                session: self.session.after(WaitEvent::Seen),
                ..self
            },
            WaitStep::Clear => Waiting {
                inner: Inner { waker: None, ..self.inner },
                session: self.session.after(WaitEvent::Cleared),
                ..self
            },
            WaitStep::Ready | WaitStep::Pending => self,
        }
    }
}

/// A poll after the moves.
pub open spec fn waited<W>(inner: Inner<W>, waker: W, moves: Seq<Move>) -> Waiting<W>
    decreases moves.len(),
{
    if moves.len() == 0 {
        Waiting::start(inner)
    } else {
        let before = waited(inner, waker, moves.drop_last());
        match moves.last() {
            Move::Step => before.stepped(waker),
            Move::Interrupt => before.interrupted(),
        }
    }
}

/// The interrupts among the moves.
pub open spec fn interrupts(moves: Seq<Move>) -> nat
    decreases moves.len(),
{
    if moves.len() == 0 {
        0
    } else {
        interrupts(moves.drop_last()) + if moves.last() is Interrupt {
            1nat
        } else {
            0nat
        }
    }
}

/// What holds of a poll at each step, with `total` interrupts to be seen.
spec fn accounted<W>(s: Waiting<W>, total: nat) -> bool {
    match s.session.step {
        WaitStep::Look => {
            &&& s.inner.unseen() == total
            &&& s.session.registered ==> s.inner.waker is Some
        },
        WaitStep::Register => s.inner.unseen() == total && !s.session.registered,
        WaitStep::See(seq) => {
            &&& s.inner.seq.wrapping_sub(seq) == s.late
            &&& seq.wrapping_sub(s.inner.consumed_seq) + s.late == total
            &&& seq != s.inner.consumed_seq
        },
        WaitStep::Clear => s.inner.unseen() == s.late < total,
        WaitStep::Ready => s.inner.unseen() == s.late < total && s.inner.waker is None,
        WaitStep::Pending => {
            &&& s.inner.unseen() == s.late == total
            &&& s.inner.waker is Some
            &&& total > 0 ==> s.woken
        },
    }
}

proof fn lemma_accounted<W>(inner: Inner<W>, waker: W, moves: Seq<Move>)
    requires
        inner.unseen() + interrupts(moves) <= u32::MAX,
    ensures
        accounted(waited(inner, waker, moves), inner.unseen() + interrupts(moves)),
    decreases moves.len(),
{
    if moves.len() > 0 {
        lemma_accounted(inner, waker, moves.drop_last());
    }
}

/// An interrupt is never lost to a waiter, wherever it breaks into a poll and however many come:
/// either the poll is ready, and those that came after it looked are still to be seen, or the
/// waiter is woken and finds them all at its next poll. (Interrupts that fill the whole range of
/// the counter look as if there were none, and are left out.)
pub proof fn lemma_no_lost_wakeup<W>(inner: Inner<W>, waker: W, moves: Seq<Move>)
    requires
        inner.unseen() + interrupts(moves) <= u32::MAX,
    ensures
        ({
            let s = waited(inner, waker, moves);
            let total = inner.unseen() + interrupts(moves);
            &&& s.session.step is Ready ==> s.late < total && s.inner.unseen() == s.late
            &&& s.session.step is Pending ==> s.inner.unseen() == total
            &&& s.session.step is Pending && total > 0 ==> s.woken && s.inner.pending()
        }),
{
    lemma_accounted(inner, waker, moves);
}

/// A poll that is over leaves a waker behind if it waits, and none if it goes on, wherever
/// interrupts broke in.
pub proof fn lemma_slot_tells_who_waits<W>(inner: Inner<W>, waker: W, moves: Seq<Move>)
    requires
        inner.unseen() + interrupts(moves) <= u32::MAX,
    ensures
        ({
            let s = waited(inner, waker, moves);
            &&& s.session.step is Ready ==> s.inner.waker is None
            &&& s.session.step is Pending ==> s.inner.waker is Some
        }),
{
    lemma_accounted(inner, waker, moves);
}

/// An interrupt that arrives before anyone waits is kept: the first poll is ready.
pub proof fn lemma_early_interrupt_is_kept<W>(before: Inner<W>, waker: W)
    requires
        before.seq.wrapping_add(1) != before.consumed_seq,
    ensures
        before.after_interrupt().pending(),
        !after_poll(before.after_interrupt(), waker).pending(),
{
}

/// A waiter that is done leaves no waker behind; one that waits has one in the slot.
pub proof fn lemma_waker_lives_with_waiter<W>(inner: Inner<W>, waker: W)
    ensures
        inner.pending() ==> after_poll(inner, waker).waker is None,
        !inner.pending() ==> after_poll(inner, waker).waker is Some,
        !after_poll(inner, waker).pending(),
{
}

/// Several interrupts before a poll count as one: the poll sees them all.
pub proof fn lemma_interrupts_merge<W>(inner: Inner<W>, waker: W)
    requires
        inner.pending(),
        inner.after_interrupt().pending(),
    ensures
        ({
            let once = after_poll(inner, waker);
            let twice = after_poll(inner.after_interrupt(), waker);
            &&& !once.pending() && !twice.pending()
            &&& once.waker == twice.waker
        }),
{
}

/// An interrupt adds one to those that were not seen, seeing them leaves none, and neither
/// changes anything else; there is something to see if and only if the count is not zero.
pub proof fn lemma_interrupts_are_counted<W>(inner: Inner<W>)
    ensures
        inner.pending() <==> inner.unseen() > 0,
        inner.unseen() < u32::MAX ==> inner.after_interrupt().unseen() == inner.unseen() + 1,
        inner.after_interrupt().waker == inner.waker,
        inner.after_interrupt().consumed_seq == inner.consumed_seq,
        inner.after_consume().unseen() == 0,
        inner.after_consume().seq == inner.seq,
        inner.after_consume().waker is None,
{
}

/// The first waker that is left stays until it is taken out, and leaving one changes nothing else.
pub proof fn lemma_first_waker_stays<W>(inner: Inner<W>, a: W, b: W)
    ensures
        inner.waker is None ==> inner.after_register(a).waker == Some(a),
        inner.waker is Some ==> inner.after_register(a) == inner,
        inner.after_register(a).after_register(b) == inner.after_register(a),
        inner.after_register(a).seq == inner.seq,
        inner.after_register(a).consumed_seq == inner.consumed_seq,
{
}

/// The handler counts before it looks for a waker, wakes the one it finds, and raises the flag
/// last; without a token it only raises the flag.
pub proof fn lemma_handler_takes_its_steps(found: bool)
    ensures
        SignalStep::start(true) is Count,
        SignalStep::start(false) is Raise,
        SignalStep::Count.after(found) is Find,
        SignalStep::Find.after(true) is Wake,
        SignalStep::Find.after(false) is Raise,
        SignalStep::Wake.after(found) is Raise,
        SignalStep::Raise.after(found) is Done,
        SignalStep::Done.after(found) is Done,
{
}

/// A waker goes into an empty slot and nowhere else: one that finds the slot taken, at the first
/// look or at the second, is dropped.
pub proof fn lemma_waker_goes_into_empty_slot(step: RegisterStep, empty: bool)
    ensures
        step.after(empty) is Install <==> step is Look && empty,
        step.after(empty) is Discard <==> (step is Look || step is Install) && !empty,
        step.after(empty) is Done <==> (step is Install && empty) || step is Discard || step is Done,
{
}

/// A waiter looks before and after it left its waker, and is ready if and only if a look showed
/// something; what it then stores as seen is what it looked at.
pub proof fn lemma_waiter_takes_its_steps(s: WaitSession, seq: u32, consumed_seq: u32)
    ensures
        WaitSession::start().step is Look,
        !WaitSession::start().registered,
        ({
            let looked = s.after(WaitEvent::Looked { seq, consumed_seq });
            &&& looked.registered == s.registered
            &&& seq != consumed_seq ==> looked.step == WaitStep::See(seq)
            &&& seq == consumed_seq && s.registered ==> looked.step is Pending
            &&& seq == consumed_seq && !s.registered ==> looked.step is Register
        }),
        s.after(WaitEvent::Registered).step is Look,
        s.after(WaitEvent::Registered).registered,
        s.after(WaitEvent::Seen).step is Clear,
        s.after(WaitEvent::Cleared).step is Ready,
        s.expects(WaitEvent::Looked { seq, consumed_seq }) <==> s.step is Look,
        s.expects(WaitEvent::Registered) <==> s.step is Register,
        s.expects(WaitEvent::Seen) <==> s.step is See,
        s.expects(WaitEvent::Cleared) <==> s.step is Clear,
{
}

/// A poll counts no interrupt and forgets none: it sees all that came or there were none, and it
/// leaves its waker only in an empty slot.
pub proof fn lemma_poll_sees_all<W>(inner: Inner<W>, waker: W)
    ensures
        after_poll(inner, waker).seq == inner.seq,
        after_poll(inner, waker).consumed_seq == inner.seq,
        !inner.pending() && inner.waker is None ==> after_poll(inner, waker).waker == Some(waker),
        !inner.pending() && inner.waker is Some ==> after_poll(inner, waker).waker == inner.waker,
{
}

} // verus!
