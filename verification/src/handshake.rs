//! How the two processes of a channel find each other and swap descriptors.

use vstd::prelude::*;

verus! {

/// The pause between two looks for a peer that connects, in milliseconds.
pub const ACCEPT_PAUSE_MS: u64 = 50;

/// What is done before an attempt to meet the peer.
#[derive(Debug, Clone, Copy, PartialEq, Eq, Structural)]
pub enum Attempt {
    Try,
    /// The process is to end.
    Interrupted,
}

/// What an attempt to meet the peer came to.
#[derive(Debug, Clone, Copy, PartialEq, Eq, Structural)]
pub enum Meeting {
    Connected,
    /// Nobody connects yet.
    WouldBlock,
    /// Nobody listens yet.
    ConnectionRefused,
    /// The place to meet is not there yet.
    NotFound,
    /// Any other error.
    Failed,
}

/// What follows on an attempt.
#[derive(Debug, Clone, Copy, PartialEq, Eq, Structural)]
pub enum AfterAttempt {
    Proceed,
    /// Try again after this many milliseconds.
    Pause(u64),
    Fail,
}

/// What is done before an attempt.
pub fn before_attempt(term: bool) -> (r: Attempt)
    ensures
        r == (if term {
            Attempt::Interrupted
        } else {
            Attempt::Try
        }),
{
    if term {
        Attempt::Interrupted
    } else {
        Attempt::Try
    }
}

/// What follows for the side that waits to be met.
pub fn after_accept(m: Meeting) -> (r: AfterAttempt)
    ensures
        r == (match m {
            Meeting::Connected => AfterAttempt::Proceed,
            Meeting::WouldBlock => AfterAttempt::Pause(ACCEPT_PAUSE_MS),
            _ => AfterAttempt::Fail,
        }),
{
    match m {
        Meeting::Connected => AfterAttempt::Proceed,
        Meeting::WouldBlock => AfterAttempt::Pause(ACCEPT_PAUSE_MS),
        _ => AfterAttempt::Fail,
    }
}

/// What follows for the side that looks for its peer, and pauses `pause_ms` in between.
pub fn after_connect(m: Meeting, pause_ms: u64) -> (r: AfterAttempt)
    ensures
        r == (match m {
            Meeting::Connected => AfterAttempt::Proceed,
            Meeting::ConnectionRefused | Meeting::NotFound => AfterAttempt::Pause(pause_ms),
            _ => AfterAttempt::Fail,
        }),
{
    match m {
        Meeting::Connected => AfterAttempt::Proceed,
        Meeting::ConnectionRefused => AfterAttempt::Pause(pause_ms),
        Meeting::NotFound => AfterAttempt::Pause(pause_ms),
        _ => AfterAttempt::Fail,
    }
}

/// One descriptor that changes hands, as one side sees it.
#[derive(Debug, Clone, Copy, PartialEq, Eq, Structural)]
pub enum Swap {
    SendMemory,
    ReceiveMemory,
    SendInterrupts,
    ReceiveInterrupts,
    Done,
}

/// The `i`th swap of the side that connects. `memory` says whether it brings shared memory.
pub open spec fn connecting_swap(memory: bool, i: nat) -> Swap {
    if memory {
        if i == 0 {
            Swap::SendMemory
        } else if i == 1 {
            Swap::SendInterrupts
        } else if i == 2 {
            Swap::ReceiveInterrupts
        } else {
            Swap::Done
        }
    } else if i == 0 {
        Swap::SendInterrupts
    } else if i == 1 {
        Swap::ReceiveInterrupts
    } else {
        Swap::Done
    }
}

/// The same swap as the other side sees it.
pub open spec fn mirrored(s: Swap) -> Swap {
    match s {
        Swap::SendMemory => Swap::ReceiveMemory,
        Swap::ReceiveMemory => Swap::SendMemory,
        Swap::SendInterrupts => Swap::ReceiveInterrupts,
        Swap::ReceiveInterrupts => Swap::SendInterrupts,
        Swap::Done => Swap::Done,
    }
}

/// What the side that connects swaps next, after `done` swaps.
pub fn connect_and_exchange(memory: bool, done: usize) -> (r: Swap)
    ensures
        r == connecting_swap(memory, done as nat),
{
    if memory {
        if done == 0 {
            return Swap::SendMemory;
        }
        if done == 1 {
            return Swap::SendInterrupts;
        }
        if done == 2 {
            return Swap::ReceiveInterrupts;
        }
        return Swap::Done;
    }
    if done == 0 {
        Swap::SendInterrupts
    } else if done == 1 {
        Swap::ReceiveInterrupts
    } else {
        Swap::Done
    }
}

/// What the side that is connected to swaps next, after `done` swaps: whatever its peer sends it
/// receives, and the other way round.
pub fn wait_and_exchange(memory: bool, done: usize) -> (r: Swap)
    ensures
        r == mirrored(connecting_swap(memory, done as nat)),
{
    match connect_and_exchange(memory, done) {
        Swap::SendMemory => Swap::ReceiveMemory,
        Swap::ReceiveMemory => Swap::SendMemory,
        Swap::SendInterrupts => Swap::ReceiveInterrupts,
        Swap::ReceiveInterrupts => Swap::SendInterrupts,
        Swap::Done => Swap::Done,
    }
}

/// Both sides swap the same number of descriptors, never wait to receive at the same time, and
/// each ends with the other's interrupts.
pub proof fn lemma_swaps_match(memory: bool, i: nat)
    ensures
        ({
            let a = connecting_swap(memory, i);
            let b = mirrored(a);
            &&& a is Done <==> b is Done
            &&& !((a is ReceiveMemory || a is ReceiveInterrupts) && (b is ReceiveMemory
                || b is ReceiveInterrupts))
            &&& mirrored(b) == a
        }),
        exists|k: nat| connecting_swap(memory, k) is ReceiveInterrupts,
        exists|k: nat| mirrored(connecting_swap(memory, k)) is ReceiveInterrupts,
{
    if memory {
        assert(connecting_swap(memory, 2) is ReceiveInterrupts);
        assert(mirrored(connecting_swap(memory, 1)) is ReceiveInterrupts);
    } else {
        assert(connecting_swap(memory, 1) is ReceiveInterrupts);
        assert(mirrored(connecting_swap(memory, 0)) is ReceiveInterrupts);
    }
}

/// The memory goes over first, if there is any; then the interrupts of the side that connects,
/// then those of the other; and nothing else.
pub proof fn lemma_swaps_have_their_turns(memory: bool, i: nat)
    ensures
        ({
            let first = if memory {
                1nat
            } else {
                0
            };
            let s = connecting_swap(memory, i);
            &&& s is SendMemory <==> memory && i == 0
            &&& s is SendInterrupts <==> i == first
            &&& s is ReceiveInterrupts <==> i == first + 1
            &&& s is Done <==> i > first + 1
            &&& !(s is ReceiveMemory)
        }),
{
}

/// What one side sends the other receives, and the same thing.
pub proof fn lemma_sides_swap_the_same(s: Swap)
    ensures
        s is SendMemory <==> mirrored(s) is ReceiveMemory,
        s is ReceiveMemory <==> mirrored(s) is SendMemory,
        s is SendInterrupts <==> mirrored(s) is ReceiveInterrupts,
        s is ReceiveInterrupts <==> mirrored(s) is SendInterrupts,
        s is Done <==> mirrored(s) is Done,
{
}

} // verus!
