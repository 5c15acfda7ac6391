//! The single-producer, single-consumer byte ring of the shared memory channels.

use vstd::prelude::*;

use crate::bytes;

verus! {

/// Bytes a ring holds. A power of two, so that positions wrap with the counters.
pub const RING_CAPACITY: usize = 0x10000;

/// How far `write` is ahead of `read`, both counters taken to wrap around.
pub open spec fn distance(write: u64, read: u64) -> nat {
    if write >= read {
        (write - read) as nat
    } else {
        (write - read + 0x1_0000_0000_0000_0000) as nat
    }
}

/// The place in the data area of the byte `i` steps behind `pos`.
pub open spec fn slot(pos: u64, i: int) -> int {
    (pos + i) % (RING_CAPACITY as int)
}

/// A stretch of the data area: `first` bytes from `start` on, then `rest` bytes from its
/// beginning.
#[derive(Debug, Clone, Copy, PartialEq, Eq, Structural)]
pub struct Span {
    pub start: usize,
    pub first: usize,
    pub rest: usize,
}

impl Span {
    /// The number of bytes in the stretch.
    pub open spec fn bytes(self) -> nat {
        (self.first + self.rest) as nat
    }

    /// The place of the `i`th byte of the stretch.
    pub open spec fn place(self, i: int) -> int {
        if i < self.first {
            self.start + i
        } else {
            i - self.first
        }
    }

    /// The stretch lies in the data area.
    pub open spec fn fits(self) -> bool {
        &&& self.start < RING_CAPACITY
        &&& self.start + self.first <= RING_CAPACITY
        &&& self.rest <= self.start
        &&& self.rest > 0 ==> self.start + self.first == RING_CAPACITY
    }

    /// The number of bytes in the stretch.
    pub fn len(&self) -> (r: usize)
        requires
            self.fits(),
        ensures
            r == self.bytes(),
    {
        self.first + self.rest
    }
}

/// The stretch of `n` bytes that begins `pos` bytes into the stream.
fn span_at(pos: u64, n: usize) -> (r: Span)
    requires
        n <= RING_CAPACITY,
    ensures
        r.fits(),
        r.bytes() == n,
        forall|i: int| 0 <= i < n ==> #[trigger] r.place(i) == slot(pos, i),
{
    let start: usize = (pos % 0x10000) as usize;
    let room: usize = RING_CAPACITY - start;
    let first: usize = if n < room {
        n
    } else {
        room
    };
    Span { start, first, rest: n - first }
}

/// The two counters of a ring: how much was ever written and how much was ever read.
#[derive(Debug, Clone, Copy, PartialEq, Eq, Structural)]
pub struct Positions {
    pub write_pos: u64,
    pub read_pos: u64,
}

impl Positions {
    /// The number of bytes written and not yet read.
    pub open spec fn used(self) -> nat {
        distance(self.write_pos, self.read_pos)
    }

    /// No more is held than fits.
    pub open spec fn valid(self) -> bool {
        self.used() <= RING_CAPACITY
    }

    /// The bytes that a reader with room for `room` bytes takes.
    pub open spec fn readable(self, room: nat) -> nat {
        bytes::least(self.used(), room)
    }

    /// The bytes of `len` that a writer finds room for.
    pub open spec fn writable(self, len: nat) -> nat {
        bytes::least((RING_CAPACITY - self.used()) as nat, len)
    }

    /// Where a reader with room for `room` bytes finds what it takes.
    pub fn read_span(&self, room: usize) -> (r: Span)
        requires
            self.valid(),
        ensures
            r.fits(),
            r.bytes() == self.readable(room as nat),
            forall|i: int| 0 <= i < r.bytes() ==> #[trigger] r.place(i) == slot(self.read_pos, i),
    {
        let available = self.write_pos.wrapping_sub(self.read_pos) as usize;
        let n = if available < room {
            available
        } else {
            room
        };
        span_at(self.read_pos, n)
    }

    /// Where a writer of `len` bytes puts what there is room for.
    pub fn write_span(&self, len: usize) -> (r: Span)
        requires
            self.valid(),
        ensures
            r.fits(),
            r.bytes() == self.writable(len as nat),
            forall|i: int| 0 <= i < r.bytes() ==> #[trigger] r.place(i) == slot(self.write_pos, i),
    {
        let used = self.write_pos.wrapping_sub(self.read_pos) as usize;
        let free: usize = RING_CAPACITY - used;
        let n = if free < len {
            free
        } else {
            len
        };
        span_at(self.write_pos, n)
    }

    /// The positions once `n` more bytes have been read.
    pub fn after_read(&self, n: usize) -> (r: Positions)
        requires
            n <= self.used(),
        ensures
            r.write_pos == self.write_pos,
            r.read_pos == self.read_pos.wrapping_add(n as u64),
            r.used() == self.used() - n,
    {
        Positions { write_pos: self.write_pos, read_pos: self.read_pos.wrapping_add(n as u64) }
    }

    /// The positions once `n` more bytes have been written.
    pub fn after_write(&self, n: usize) -> (r: Positions)
        requires
            self.used() + n <= RING_CAPACITY,
        ensures
            r.read_pos == self.read_pos,
            r.write_pos == self.write_pos.wrapping_add(n as u64),
            r.used() == self.used() + n,
    {
        Positions { write_pos: self.write_pos.wrapping_add(n as u64), read_pos: self.read_pos }
    }

    /// Whether all that was written has been read.
    pub fn drained(&self) -> (r: bool)
        ensures
            r == (self.used() == 0),
    {
        self.read_pos == self.write_pos
    }
}

/// A ring: its positions and its data area.
pub struct Ring {
    pub pos: Positions,
    pub data: Vec<u8>,
}

impl View for Ring {
    type V = Seq<u8>;

    /// The bytes written and not yet read, oldest first.
    open spec fn view(&self) -> Seq<u8> {
        Seq::new(self.pos.used(), |i: int| self.data@[slot(self.pos.read_pos, i)])
    }
}

impl Ring {
    pub open spec fn inv(&self) -> bool {
        &&& self.pos.valid()
        &&& self.data@.len() == RING_CAPACITY
    }

    /// An empty ring.
    pub fn new() -> (r: Ring)
        ensures
            r.inv(),
            r@ == Seq::<u8>::empty(),
            r.pos == (Positions { write_pos: 0, read_pos: 0 }),
    {
        let r = Ring {
            pos: Positions { write_pos: 0, read_pos: 0 },
            data: vec![0u8; RING_CAPACITY],
        };
        assert(r@ =~= Seq::<u8>::empty());
        r
    }

    /// Takes what there is and `out` has room for, oldest first. Returns the number of bytes:
    /// 0 if there are none.
    pub fn read_available(&mut self, out: &mut [u8]) -> (n: usize)
        requires
            old(self).inv(),
        ensures
            final(self).inv(),
            n == old(self).pos.readable(old(out)@.len()),
            final(out)@ == old(self)@.take(n as int) + old(out)@.skip(n as int),
            final(self)@ == old(self)@.skip(n as int),
            final(self).pos.write_pos == old(self).pos.write_pos,
            final(self).pos.read_pos == old(self).pos.read_pos.wrapping_add(n as u64),
    {
        let ghost before = self@;
        let ghost room = out@;
        let span = self.pos.read_span(out.len());
        let n = span.len();
        let mut i: usize = 0;
        while i < span.first
            invariant
                i <= span.first,
                span.fits(),
                span.bytes() <= out@.len() == room.len(),
                self.data@.len() == RING_CAPACITY,
                forall|k: int| 0 <= k < i ==> out@[k] == self.data@[span.place(k)],
                forall|k: int| i <= k < out@.len() ==> out@[k] == room[k],
            decreases span.first - i,
        {
            out[i] = self.data[span.start + i];
            i += 1;
        }
        let mut j: usize = 0;
        while j < span.rest
            invariant
                j <= span.rest,
                span.fits(),
                span.bytes() <= out@.len() == room.len(),
                self.data@.len() == RING_CAPACITY,
                forall|k: int|
                    0 <= k < span.first + j ==> out@[k] == self.data@[span.place(k)],
                forall|k: int| span.first + j <= k < out@.len() ==> out@[k] == room[k],
            decreases span.rest - j,
        {
            out[span.first + j] = self.data[j];
            j += 1;
        }
        assert forall|k: int| 0 <= k < n implies out@[k] == before[k] by {
            assert(span.place(k) == slot(self.pos.read_pos, k));
        }
        assert(out@ =~= before.take(n as int) + room.skip(n as int));
        let next = self.pos.after_read(n);
        assert forall|k: int| 0 <= k < next.used() implies slot(next.read_pos, k) == slot(
            self.pos.read_pos,
            n + k,
        ) by {
            lemma_slot_moves(self.pos.read_pos, n, k);
        }
        self.pos = next;
        assert(self@ =~= before.skip(n as int));
        n
    }

    /// Adds as much of `src` as there is room for. Returns the number of bytes: 0 if the ring
    /// is full.
    pub fn write_available(&mut self, src: &[u8]) -> (n: usize)
        requires
            old(self).inv(),
        ensures
            final(self).inv(),
            n == old(self).pos.writable(src@.len()),
            final(self)@ == old(self)@ + src@.take(n as int),
            final(self).pos.read_pos == old(self).pos.read_pos,
            final(self).pos.write_pos == old(self).pos.write_pos.wrapping_add(n as u64),
    {
        let ghost before = self@;
        let ghost data = self.data@;
        let span = self.pos.write_span(src.len());
        let n = span.len();
        let mut i: usize = 0;
        while i < span.first
            invariant
                i <= span.first,
                span.fits(),
                span.bytes() <= src@.len(),
                self.data@.len() == data.len() == RING_CAPACITY,
                self.pos == old(self).pos,
                forall|k: int| 0 <= k < i ==> self.data@[#[trigger] span.place(k)] == src@[k],
                forall|p: int|
                    0 <= p < RING_CAPACITY && !(span.start <= p < span.start + i)
                        ==> self.data@[p] == data[p],
            decreases span.first - i,
        {
            self.data.set(span.start + i, src[i]);
            i += 1;
        }
        let mut j: usize = 0;
        while j < span.rest
            invariant
                j <= span.rest,
                span.fits(),
                span.bytes() <= src@.len(),
                src@.len() == src.len(),
                self.data@.len() == data.len() == RING_CAPACITY,
                self.pos == old(self).pos,
                forall|k: int|
                    0 <= k < span.first + j ==> self.data@[#[trigger] span.place(k)] == src@[k],
                forall|p: int|
                    j <= p < RING_CAPACITY && !(span.start <= p < span.start + span.first)
                        ==> self.data@[p] == data[p],
            decreases span.rest - j,
        {
            self.data.set(j, src[span.first + j]);
            j += 1;
        }
        let next = self.pos.after_write(n);
        let ghost used = before.len();
        assert forall|k: int| 0 <= k < next.used() implies self.data@[slot(next.read_pos, k)] == (
        before + src@.take(n as int))[k] by {
            if k < used {
                lemma_regions_disjoint(self.pos, k, span);
                assert(self.data@[slot(next.read_pos, k)] == data[slot(next.read_pos, k)]);
            } else {
                lemma_slots_follow(self.pos, k);
                assert(span.place(k - used) == slot(self.pos.write_pos, k - used));
            }
        }
        self.pos = next;
        assert(self@ =~= before + src@.take(n as int));
        n
    }
}

/// Moving a position on by `n` moves its slots on by `n`.
proof fn lemma_slot_moves(pos: u64, n: usize, k: int)
    requires
        0 <= n <= RING_CAPACITY,
        0 <= k <= RING_CAPACITY,
    ensures
        slot(pos.wrapping_add(n as u64), k) == slot(pos, n + k),
{
}

/// What is written next stands behind what is held.
proof fn lemma_slots_follow(pos: Positions, k: int)
    requires
        pos.valid(),
        pos.used() <= k <= RING_CAPACITY,
    ensures
        slot(pos.read_pos, k) == slot(pos.write_pos, k - pos.used()),
{
}

/// A writer touches no byte that is still to be read.
pub proof fn lemma_writer_spares_unread(pos: Positions, unread: int, written: int)
    requires
        pos.valid(),
        0 <= unread < pos.used(),
        0 <= written < RING_CAPACITY - pos.used(),
    ensures
        slot(pos.read_pos, unread) != slot(pos.write_pos, written),
{
    assert(slot(pos.write_pos, written) == slot(pos.read_pos, pos.used() + written));
}

/// A writer that has not seen the reader's last steps finds less room, never more: what it
/// writes is still free.
pub proof fn lemma_late_writer_is_safe(now: Positions, seen: u64, len: nat)
    requires
        distance(now.read_pos, seen) + now.used() <= RING_CAPACITY,
    ensures
        ({
            let late = Positions { write_pos: now.write_pos, read_pos: seen };
            &&& late.valid()
            &&& late.writable(len) <= now.writable(len)
        }),
{
}

/// A reader that has not seen the writer's last steps finds fewer bytes, never more: what it
/// reads has been written.
pub proof fn lemma_late_reader_is_safe(now: Positions, seen: u64, room: nat)
    requires
        now.valid(),
        distance(now.write_pos, seen) <= now.used(),
    ensures
        ({
            let late = Positions { write_pos: seen, read_pos: now.read_pos };
            &&& late.valid()
            &&& late.readable(room) <= now.readable(room)
        }),
{
}

/// One call on a ring.
pub enum RingCall {
    Write(Seq<u8>),
    Read(nat),
}

/// What passed through a ring: all that was taken in, all that was handed out, and what is
/// held.
#[verifier::ext_equal]
pub struct Passage {
    pub written: Seq<u8>,
    pub read: Seq<u8>,
    pub held: Seq<u8>,
}

/// What has passed through a new ring after `calls`.
pub open spec fn passage(calls: Seq<RingCall>) -> Passage
    decreases calls.len(),
{
    if calls.len() == 0 {
        Passage { written: Seq::empty(), read: Seq::empty(), held: Seq::empty() }
    } else {
        let p = passage(calls.drop_last());
        match calls.last() {
            RingCall::Write(src) => {
                let n = bytes::least((RING_CAPACITY - p.held.len()) as nat, src.len()) as int;
                Passage { written: p.written + src.take(n), read: p.read, held: p.held + src.take(n) }
            },
            RingCall::Read(room) => {
                let n = bytes::least(p.held.len(), room) as int;
                Passage { written: p.written, read: p.read + p.held.take(n), held: p.held.skip(n) }
            },
        }
    }
}

/// Whatever the calls, the bytes come out in the order in which they went in: what was read,
/// followed by what is held, is what was written. And never is more held than fits.
pub proof fn lemma_first_in_first_out(calls: Seq<RingCall>)
    ensures
        passage(calls).read + passage(calls).held == passage(calls).written,
        passage(calls).held.len() <= RING_CAPACITY,
    decreases calls.len(),
{
    if calls.len() > 0 {
        lemma_first_in_first_out(calls.drop_last());
        let p = passage(calls.drop_last());
        let q = passage(calls);
        match calls.last() {
            RingCall::Write(src) => {
                assert(q.read + q.held =~= q.written);
            },
            RingCall::Read(room) => {
                assert(q.read + q.held =~= p.read + p.held);
            },
        }
    }
}

/// A writer touches no byte that is still to be read, wherever its stretch wraps around.
proof fn lemma_regions_disjoint(pos: Positions, k: int, span: Span)
    requires
        pos.valid(),
        span.fits(),
        pos.used() + span.bytes() <= RING_CAPACITY,
        forall|i: int| 0 <= i < span.bytes() ==> #[trigger] span.place(i) == slot(pos.write_pos, i),
        0 <= k < pos.used(),
    ensures
        !(span.start <= slot(pos.read_pos, k) < span.start + span.first),
        slot(pos.read_pos, k) >= span.rest,
{
    let p = slot(pos.read_pos, k);
    if span.start <= p < span.start + span.first {
        let i = p - span.start;
        assert(span.place(i) == p);
        lemma_writer_spares_unread(pos, k, i);
    }
    if p < span.rest {
        let i = p + span.first;
        assert(span.place(i) == p);
        lemma_writer_spares_unread(pos, k, i);
    }
}

/// The counters measure how much is held: writing adds to it, reading takes from it, also where
/// the counters wrap around.
pub proof fn lemma_counters_measure_what_is_held(write: u64, read: u64, n: u64)
    ensures
        distance(read, read) == 0,
        distance(write, read) == write.wrapping_sub(read),
        distance(write, read) + n <= u64::MAX ==> distance(write.wrapping_add(n), read) == distance(
            write,
            read,
        ) + n,
        n <= distance(write, read) ==> distance(write, read.wrapping_add(n)) == distance(write, read)
            - n,
{
}

/// The places of the bytes go round the 65536 places of the data area, one behind the other.
pub proof fn lemma_places_go_round(pos: u64, i: int)
    requires
        0 <= i,
    ensures
        0 <= slot(pos, i) < 65536,
        slot(pos, 0) == pos % 65536,
        slot(pos, i + 1) == (if slot(pos, i) == 65535 {
            0
        } else {
            slot(pos, i) + 1
        }),
        slot(pos, i + 65536) == slot(pos, i),
{
}

/// A reader takes all that is held or all it has room for, a writer puts in all it has or fills
/// the ring to its 65536 bytes.
pub proof fn lemma_transfers_take_all_they_can(pos: Positions, n: nat)
    requires
        pos.used() <= 65536,
    ensures
        pos.readable(n) <= n && pos.readable(n) <= pos.used(),
        pos.readable(n) == n || pos.readable(n) == pos.used(),
        pos.writable(n) <= n && pos.used() + pos.writable(n) <= 65536,
        pos.writable(n) == n || pos.used() + pos.writable(n) == 65536,
        pos.readable(n) == 0 <==> n == 0 || pos.write_pos == pos.read_pos,
        pos.writable(n) == 0 <==> n == 0 || pos.used() == 65536,
        pos.valid(),
{
}

/// A stretch goes round the data area once at most: its bytes lie one behind the other, and behind
/// the last place comes the first.
pub proof fn lemma_stretch_goes_round(span: Span, i: int)
    requires
        span.fits(),
        0 <= i,
        i + 1 < span.bytes(),
    ensures
        0 <= span.place(i) < 65536,
        span.place(0) == span.start || span.first == 0,
        span.place(i + 1) == (if span.place(i) == 65535 {
            0
        } else {
            span.place(i) + 1
        }),
        span.bytes() == span.first + span.rest,
        span.bytes() <= 65536,
{
}

} // verus!
