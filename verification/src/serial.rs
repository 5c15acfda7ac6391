//! Reading and writing a descriptor that does not block, poll by poll.

use vstd::prelude::*;

use crate::protocol;
use crate::protocol::Frame;
use crate::sys::IoOutcome;

verus! {

/// What a poll does next.
#[derive(Debug, Clone, Copy, PartialEq, Eq, Structural)]
pub enum IoStep {
    /// Try again, from this byte of the buffer on.
    Try(usize),
    /// Wait until the descriptor is ready.
    Wait,
    /// Done; this many bytes were moved.
    Ready(usize),
    /// The process is to end.
    Terminated,
    /// Give the system's error back.
    Failed,
    /// The device took no byte.
    WroteNothing,
}

/// One poll of a read that takes all there is, as far as it has room.
#[derive(Debug, Clone, Copy, PartialEq, Eq, Structural)]
pub struct ReadFuture {
    /// The room.
    pub len: usize,
    /// The bytes read in this poll.
    pub total: usize,
}

impl ReadFuture {
    pub open spec fn inv(self) -> bool {
        self.total <= self.len
    }

    /// What follows on a read.
    pub open spec fn step(self, outcome: IoOutcome) -> IoStep {
        match outcome {
            IoOutcome::Bytes(n) => if n == 0 {
                if self.total == 0 {
                    IoStep::Wait
                } else {
                    IoStep::Ready(self.total)
                }
            } else if self.total + n >= self.len {
                IoStep::Ready((self.total + n) as usize)
            } else {
                IoStep::Try((self.total + n) as usize)
            },
            IoOutcome::WouldBlock => if self.total == 0 {
                IoStep::Wait
            } else {
                IoStep::Ready(self.total)
            },
            IoOutcome::Failed => IoStep::Failed,
        }
    }

    /// Begins a poll. `term` says whether the process is to end.
    pub fn begin(&mut self, term: bool) -> (r: IoStep)
        ensures
            final(self).len == old(self).len,
            final(self).total == 0,
            final(self).inv(),
            r == (if term {
                IoStep::Terminated
            } else {
                IoStep::Try(0)
            }),
    {
        self.total = 0;
        if term {
            IoStep::Terminated
        } else {
            IoStep::Try(0)
        }
    }

    /// What follows on a read into the room that is left.
    pub fn poll(&mut self, outcome: IoOutcome) -> (r: IoStep)
        requires
            old(self).inv(),
            outcome matches IoOutcome::Bytes(n) ==> old(self).total + n <= old(self).len,
        ensures
            final(self).inv(),
            final(self).len == old(self).len,
            r == old(self).step(outcome),
            final(self).total == (match outcome {
                IoOutcome::Bytes(n) => (old(self).total + n) as usize,
                _ => old(self).total,
            }),
    {
        match outcome {
            IoOutcome::Bytes(n) => {
                if n == 0 {
                    if self.total == 0 {
                        IoStep::Wait
                    } else {
                        IoStep::Ready(self.total)
                    }
                } else {
                    self.total = self.total + n;
                    if self.total >= self.len {
                        IoStep::Ready(self.total)
                    } else {
                        IoStep::Try(self.total)
                    }
                }
            },
            IoOutcome::WouldBlock => {
                if self.total == 0 {
                    IoStep::Wait
                } else {
                    IoStep::Ready(self.total)
                }
            },
            IoOutcome::Failed => IoStep::Failed,
        }
    }
}

/// A write of a whole buffer.
#[derive(Debug, Clone, Copy, PartialEq, Eq, Structural)]
pub struct WriteAllFuture {
    pub len: usize,
    pub pos: usize,
}

impl WriteAllFuture {
    pub open spec fn inv(self) -> bool {
        self.pos <= self.len
    }

    /// The step of a write that has come this far.
    pub open spec fn resume(self) -> IoStep {
        if self.pos < self.len {
            IoStep::Try(self.pos)
        } else {
            IoStep::Ready(self.len)
        }
    }

    /// The write of a buffer of `len` bytes.
    pub fn new(len: usize) -> (r: Self)
        ensures
            r == (WriteAllFuture { len, pos: 0 }),
            r.inv(),
    {
        WriteAllFuture { len, pos: 0 }
    }

    /// Begins a poll.
    pub fn begin(&self) -> (r: IoStep)
        requires
            self.inv(),
        ensures
            r == self.resume(),
    {
        if self.pos < self.len {
            IoStep::Try(self.pos)
        } else {
            IoStep::Ready(self.len)
        }
    }

    /// What follows on a write of what is left.
    pub fn poll(&mut self, outcome: IoOutcome) -> (r: IoStep)
        requires
            old(self).inv(),
            outcome matches IoOutcome::Bytes(n) ==> old(self).pos + n <= old(self).len,
        ensures
            final(self).inv(),
            *final(self) == (match outcome {
                IoOutcome::Bytes(n) => WriteAllFuture {
                    pos: (old(self).pos + n) as usize,
                    ..*old(self)
                },
                _ => *old(self),
            }),
            r == (match outcome {
                IoOutcome::Bytes(_) => final(self).resume(),
                IoOutcome::WouldBlock => IoStep::Wait,
                IoOutcome::Failed => IoStep::Failed,
            }),
    {
        match outcome {
            IoOutcome::Bytes(n) => {
                self.pos = self.pos + n;
                self.begin()
            },
            IoOutcome::WouldBlock => IoStep::Wait,
            IoOutcome::Failed => IoStep::Failed,
        }
    }
}

/// One poll of a read that takes what the first read gives, the end of the stream too.
#[derive(Debug, Clone, Copy, PartialEq, Eq, Structural)]
pub struct ReadFdFuture {
    pub fd: i32,
}

impl ReadFdFuture {
    /// What follows on the read.
    pub fn poll(&self, outcome: IoOutcome) -> (r: IoStep)
        ensures
            r == (match outcome {
                IoOutcome::Bytes(n) => IoStep::Ready(n),
                IoOutcome::WouldBlock => IoStep::Wait,
                IoOutcome::Failed => IoStep::Failed,
            }),
    {
        match outcome {
            IoOutcome::Bytes(n) => IoStep::Ready(n),
            IoOutcome::WouldBlock => IoStep::Wait,
            IoOutcome::Failed => IoStep::Failed,
        }
    }
}

/// A write of a whole buffer to a descriptor that other tasks share.
#[derive(Debug, Clone, Copy, PartialEq, Eq, Structural)]
pub struct WriteFdFuture {
    pub fd: i32,
    pub write: WriteAllFuture,
}

impl WriteFdFuture {
    /// Begins a poll.
    pub fn begin(&self) -> (r: IoStep)
        requires
            self.write.inv(),
        ensures
            r == self.write.resume(),
    {
        self.write.begin()
    }

    /// What follows on a write of what is left.
    pub fn poll(&mut self, outcome: IoOutcome) -> (r: IoStep)
        requires
            old(self).write.inv(),
            outcome matches IoOutcome::Bytes(n) ==> old(self).write.pos + n <= old(self).write.len,
        ensures
            final(self).fd == old(self).fd,
            final(self).write.inv(),
            final(self).write == (match outcome {
                IoOutcome::Bytes(n) => WriteAllFuture {
                    pos: (old(self).write.pos + n) as usize,
                    ..old(self).write
                },
                _ => old(self).write,
            }),
            r == (match outcome {
                IoOutcome::Bytes(_) => final(self).write.resume(),
                IoOutcome::WouldBlock => IoStep::Wait,
                IoOutcome::Failed => IoStep::Failed,
            }),
    {
        self.write.poll(outcome)
    }
}

/// A read from `fd`.
pub fn read_fd(fd: i32) -> (r: ReadFdFuture)
    ensures
        r.fd == fd,
{
    ReadFdFuture { fd }
}

/// A write of `len` bytes to `fd`.
pub fn write_all_fd(fd: i32, len: usize) -> (r: WriteFdFuture)
    ensures
        r.fd == fd,
        r.write == (WriteAllFuture { len, pos: 0 }),
        r.write.inv(),
{
    WriteFdFuture { fd, write: WriteAllFuture::new(len) }
}

/// A frame on its way to a descriptor that blocks: its bytes, and the write of them.
pub struct FrameWrite {
    pub bytes: Vec<u8>,
    pub write: WriteAllFuture,
}

impl FrameWrite {
    pub open spec fn inv(self) -> bool {
        self.write.len == self.bytes@.len() && self.write.inv()
    }

    /// What follows on a write of what is left. A write that takes nothing is an error.
    pub fn step(&mut self, outcome: IoOutcome) -> (r: IoStep)
        requires
            old(self).inv(),
            outcome matches IoOutcome::Bytes(n) ==> old(self).write.pos + n <= old(self).write.len,
        ensures
            final(self).inv(),
            final(self).bytes == old(self).bytes,
            final(self).write.pos == (match outcome {
                IoOutcome::Bytes(n) => (old(self).write.pos + n) as usize,
                _ => old(self).write.pos,
            }),
            r == (match outcome {
                IoOutcome::Bytes(n) => if n == 0 {
                    IoStep::WroteNothing
                } else {
                    final(self).write.resume()
                },
                _ => IoStep::Failed,
            }),
    {
        match outcome {
            IoOutcome::Bytes(n) => {
                if n == 0 {
                    IoStep::WroteNothing
                } else {
                    self.write.poll(outcome)
                }
            },
            _ => IoStep::Failed,
        }
    }
}

/// Begins to write a frame.
pub fn write_frame(frame: &Frame) -> (r: FrameWrite)
    ensures
        r.bytes@ == protocol::wire_of(frame@),
        r.write == (WriteAllFuture { len: r.bytes@.len() as usize, pos: 0 }),
        r.inv(),
{
    let bytes = frame.to_bytes();
    let write = WriteAllFuture::new(bytes.len());
    FrameWrite { bytes, write }
}

/// A write is ready only when every byte was taken, and then at once.
pub proof fn lemma_write_all_writes_all(w: WriteAllFuture)
    requires
        w.inv(),
    ensures
        w.resume() is Ready <==> w.pos == w.len,
        w.resume() is Try ==> w.resume() == IoStep::Try(w.pos),
{
}

/// A read that found anything does not wait, and one that found nothing does not end.
pub proof fn lemma_read_waits_only_without_bytes(r: ReadFuture, outcome: IoOutcome)
    requires
        r.inv(),
        outcome matches IoOutcome::Bytes(n) ==> r.total + n <= r.len,
    ensures
        r.step(outcome) is Wait ==> r.total == 0,
        r.step(outcome) matches IoStep::Ready(n) ==> 0 < n <= r.len,
        r.step(outcome) matches IoStep::Try(n) ==> r.total < n < r.len,
{
}

/// What a read comes to: it fails if and only if the call failed; it waits if and only if there
/// was nothing, in this poll or before; it goes on if and only if bytes came and there is still
/// room; and it gives back all bytes that came in this poll.
pub proof fn lemma_read_takes_all_there_is(r: ReadFuture, outcome: IoOutcome)
    requires
        r.total <= r.len,
        outcome matches IoOutcome::Bytes(n) ==> r.total + n <= r.len,
    ensures
        ({
            let now = match outcome {
                IoOutcome::Bytes(n) => n as int,
                _ => 0,
            };
            let step = r.step(outcome);
            &&& step is Failed <==> outcome is Failed
            &&& step is Wait <==> !(outcome is Failed) && r.total == 0 && now == 0
            &&& step is Try <==> now > 0 && r.total + now < r.len
            &&& step is Ready <==> !(outcome is Failed) && r.total + now > 0 && (now == 0 || r.total
                + now == r.len)
            &&& step matches IoStep::Ready(n) ==> n == r.total + now
            &&& step matches IoStep::Try(n) ==> n == r.total + now
            &&& !(step is Terminated) && !(step is WroteNothing)
        }),
{
}

/// A write goes on from the first byte that was not taken, and is ready with the whole length.
pub proof fn lemma_write_goes_on_where_it_stopped(w: WriteAllFuture)
    requires
        w.pos <= w.len,
    ensures
        w.pos < w.len ==> w.resume() == IoStep::Try(w.pos),
        w.pos == w.len ==> w.resume() == IoStep::Ready(w.len),
{
}

} // verus!
