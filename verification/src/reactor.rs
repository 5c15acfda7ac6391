//! Who waits for which file descriptor.
//!
//! The reactor keeps a waker for each descriptor and direction, and the set of events that the
//! kernel has been asked to report. `W` is the waker type.

use std::collections::HashMap;
use vstd::prelude::*;

verus! {

broadcast use vstd::std_specs::hash::group_hash_axioms;

/// The event of a descriptor that can be read.
pub const EPOLLIN: u32 = 0x001;

/// The event of a descriptor that can be written.
pub const EPOLLOUT: u32 = 0x004;

/// The events that the kernel reports of a descriptor.
#[derive(Debug, Clone, Copy, PartialEq, Eq, Structural)]
pub struct Readiness {
    pub fd: i32,
    pub flags: u32,
}

/// The key of whoever waits to read from `fd`.
pub open spec fn read_token(fd: i32) -> u64 {
    (fd * 2) as u64
}

/// The key of whoever waits to write to `fd`.
pub open spec fn write_token(fd: i32) -> u64 {
    (fd * 2 + 1) as u64
}

/// A reactor as a mathematical value.
#[verifier::ext_equal]
pub struct ReactorModel<W> {
    pub wakers: Map<u64, W>,
    pub masks: Map<i32, u32>,
}

/// The wakers who are woken, and who is left, once `token` is ready.
pub open spec fn woken<W>(wakers: Map<u64, W>, token: u64) -> (Seq<W>, Map<u64, W>) {
    if wakers.dom().contains(token) {
        (seq![wakers[token]], wakers.remove(token))
    } else {
        (Seq::empty(), wakers)
    }
}

/// The wakers who are woken, and who is left, once `fd` has the events `flags`.
pub open spec fn woken_by<W>(wakers: Map<u64, W>, ready: Readiness) -> (Seq<W>, Map<u64, W>) {
    let (readers, rest) = if ready.flags & EPOLLIN != 0 {
        woken(wakers, read_token(ready.fd))
    } else {
        (Seq::empty(), wakers)
    };
    let (writers, last) = if ready.flags & EPOLLOUT != 0 {
        woken(rest, write_token(ready.fd))
    } else {
        (Seq::empty(), rest)
    };
    (readers + writers, last)
}

/// The wakers who are woken, in order, and who is left, after `events`.
pub open spec fn woken_by_all<W>(wakers: Map<u64, W>, events: Seq<Readiness>) -> (
    Seq<W>,
    Map<u64, W>,
)
    decreases events.len(),
{
    if events.len() == 0 {
        (Seq::empty(), wakers)
    } else {
        let (before, left) = woken_by_all(wakers, events.drop_last());
        let (now, last) = woken_by(left, events.last());
        (before + now, last)
    }
}

impl<W> ReactorModel<W> {
    /// The events that the kernel reports of `fd`.
    pub open spec fn mask(self, fd: i32) -> u32 {
        if self.masks.dom().contains(fd) {
            self.masks[fd]
        } else {
            0
        }
    }

    /// The reactor once `waker` waits for `event` under `token`.
    pub open spec fn waits(self, fd: i32, token: u64, event: u32, waker: W) -> ReactorModel<W> {
        let mask = self.mask(fd) | event;
        ReactorModel {
            wakers: self.wakers.insert(token, waker),
            masks: if mask != self.mask(fd) {
                self.masks.insert(fd, mask)
            } else {
                self.masks
            },
        }
    }
}

/// Who waits for what.
pub struct Reactor<W> {
    wakers: HashMap<u64, W>,
    fd_events: HashMap<i32, u32>,
}

impl<W> View for Reactor<W> {
    type V = ReactorModel<W>;

    closed spec fn view(&self) -> ReactorModel<W> {
        ReactorModel { wakers: self.wakers@, masks: self.fd_events@ }
    }
}

impl<W> Reactor<W> {
    pub fn new() -> (r: Self)
        ensures
            r@ == (ReactorModel::<W> { wakers: Map::empty(), masks: Map::empty() }),
    {
        Reactor { wakers: HashMap::new(), fd_events: HashMap::new() }
    }

    /// Notes that the kernel has been asked to report when `fd` can be read.
    pub fn add(&mut self, fd: i32)
        ensures
            final(self)@ == (ReactorModel {
                masks: old(self)@.masks.insert(fd, EPOLLIN),
                ..old(self)@
            }),
    {
        self.fd_events.insert(fd, EPOLLIN);
    }

    /// The events that the kernel reports of `fd`.
    fn mask_of(&self, fd: i32) -> (r: u32)
        ensures
            r == self@.mask(fd),
    {
        match self.fd_events.get(&fd) {
            Some(mask) => *mask,
            None => 0,
        }
    }

    /// Adds `event` to what the kernel reports of `fd`. Returns the new set if it is another.
    fn widen(&mut self, fd: i32, event: u32) -> (r: Option<u32>)
        ensures
            final(self)@.wakers == old(self)@.wakers,
            ({
                let mask = old(self)@.mask(fd) | event;
                if mask != old(self)@.mask(fd) {
                    &&& r == Some(mask)
                    &&& final(self)@.masks == old(self)@.masks.insert(fd, mask)
                } else {
                    &&& r is None
                    &&& final(self)@.masks == old(self)@.masks
                }
            }),
    {
        let cur = self.mask_of(fd);
        let new = cur | event;
        if new != cur {
            self.fd_events.insert(fd, new);
            Some(new)
        } else {
            None
        }
    }

    /// Lets `waker` wait until `fd` can be read. Returns the events that the kernel is to
    /// report of it from now on, if they change.
    pub fn modify_readable(&mut self, fd: i32, waker: W) -> (r: Option<u32>)
        requires
            fd >= 0,
        ensures
            final(self)@ == old(self)@.waits(fd, read_token(fd), EPOLLIN, waker),
            r == (if old(self)@.mask(fd) | EPOLLIN != old(self)@.mask(fd) {
                Some(old(self)@.mask(fd) | EPOLLIN)
            } else {
                None
            }),
    {
        self.wakers.insert(fd as u64 * 2, waker);
        self.widen(fd, EPOLLIN)
    }

    /// Lets `waker` wait until `fd` can be written. Returns the events that the kernel is to
    /// report of it from now on, if they change.
    pub fn modify_writable(&mut self, fd: i32, waker: W) -> (r: Option<u32>)
        requires
            fd >= 0,
        ensures
            final(self)@ == old(self)@.waits(fd, write_token(fd), EPOLLOUT, waker),
            r == (if old(self)@.mask(fd) | EPOLLOUT != old(self)@.mask(fd) {
                Some(old(self)@.mask(fd) | EPOLLOUT)
            } else {
                None
            }),
    {
        self.wakers.insert(fd as u64 * 2 + 1, waker);
        self.widen(fd, EPOLLOUT)
    }

    /// Takes out the wakers who waited for `events`, in the order in which they are woken.
    pub fn wait(&mut self, events: &Vec<Readiness>) -> (r: Vec<W>)
        requires
            forall|i: int| 0 <= i < events@.len() ==> (#[trigger] events@[i]).fd >= 0,
        ensures
            final(self)@.masks == old(self)@.masks,
            (r@, final(self)@.wakers) == woken_by_all(old(self)@.wakers, events@),
    {
        let ghost start = self@.wakers;
        let mut ready: Vec<W> = Vec::new();
        let mut i: usize = 0;
        while i < events.len()
            invariant
                i <= events.len(),
                forall|i: int| 0 <= i < events@.len() ==> (#[trigger] events@[i]).fd >= 0,
                self@.masks == old(self)@.masks,
                (ready@, self@.wakers) == woken_by_all(start, events@.take(i as int)),
            decreases events.len() - i,
        {
            let event = events[i];
            let ghost before = ready@;
            let ghost left = self@.wakers;
            let token = event.fd as u64 * 2;
            if event.flags & EPOLLIN != 0 {
                self.wake_token(token, &mut ready);
            }
            if event.flags & EPOLLOUT != 0 {
                self.wake_token(token + 1, &mut ready);
            }
            proof {
                assert(events@.take(i + 1).drop_last() =~= events@.take(i as int));
                assert(events@.take(i + 1).last() == event);
                assert(ready@ =~= before + woken_by(left, event).0);
            }
            i += 1;
        }
        assert(events@.take(events.len() as int) =~= events@);
        ready
    }

    /// Moves the waker under `token`, if there is one, to `ready`.
    fn wake_token(&mut self, token: u64, ready: &mut Vec<W>)
        ensures
            final(self)@.masks == old(self)@.masks,
            final(self)@.wakers == woken(old(self)@.wakers, token).1,
            final(ready)@ == old(ready)@ + woken(old(self)@.wakers, token).0,
    {
        let ghost before = ready@;
        match self.wakers.remove(&token) {
            Some(waker) => {
                ready.push(waker);
                assert(ready@ =~= before + seq![waker]);
            },
            None => {
                assert(self@.wakers =~= old(self)@.wakers);
                assert(ready@ =~= before + Seq::<W>::empty());
            },
        }
    }

    /// Forgets all about `fd`.
    pub fn delete(&mut self, fd: i32)
        requires
            fd >= 0,
        ensures
            final(self)@ == (ReactorModel {
                wakers: old(self)@.wakers.remove(read_token(fd)).remove(write_token(fd)),
                masks: old(self)@.masks.remove(fd),
            }),
    {
        let ghost w0 = self@.wakers;
        self.wakers.remove(&(fd as u64 * 2));
        assert(self@.wakers =~= w0.remove(read_token(fd)));
        self.wakers.remove(&(fd as u64 * 2 + 1));
        assert(self@.wakers =~= w0.remove(read_token(fd)).remove(write_token(fd)));
        let ghost m0 = self@.masks;
        self.fd_events.remove(&fd);
        assert(self@.masks =~= m0.remove(fd));
    }
}

/// Whoever waits for one direction of one descriptor is nobody else's key.
pub proof fn lemma_tokens_differ(a: i32, b: i32)
    requires
        a >= 0,
        b >= 0,
    ensures
        read_token(a) != write_token(b),
        read_token(a) == read_token(b) ==> a == b,
        write_token(a) == write_token(b) ==> a == b,
{
}

/// Waiting for one direction of a descriptor leaves the other as it was: its waker stays, and
/// the kernel still reports it.
pub proof fn lemma_directions_are_independent<W>(m: ReactorModel<W>, fd: i32, waker: W)
    requires
        fd >= 0,
    ensures
        ({
            let r = m.waits(fd, read_token(fd), EPOLLIN, waker);
            &&& r.wakers.dom().contains(write_token(fd)) == m.wakers.dom().contains(write_token(fd))
            &&& r.wakers[write_token(fd)] == m.wakers[write_token(fd)]
            &&& r.mask(fd) & EPOLLOUT == m.mask(fd) & EPOLLOUT
            &&& r.mask(fd) & EPOLLIN == EPOLLIN
        }),
        ({
            let w = m.waits(fd, write_token(fd), EPOLLOUT, waker);
            &&& w.wakers.dom().contains(read_token(fd)) == m.wakers.dom().contains(read_token(fd))
            &&& w.wakers[read_token(fd)] == m.wakers[read_token(fd)]
            &&& w.mask(fd) & EPOLLIN == m.mask(fd) & EPOLLIN
            &&& w.mask(fd) & EPOLLOUT == EPOLLOUT
        }),
{
    let mask = m.mask(fd);
    assert((mask | 1) & 4 == mask & 4 && (mask | 1) & 1 == 1) by (bit_vector);
    assert((mask | 4) & 1 == mask & 1 && (mask | 4) & 4 == 4) by (bit_vector);
}

/// A waker is woken once: whoever is woken no longer waits.
pub proof fn lemma_woken_once<W>(wakers: Map<u64, W>, token: u64)
    ensures
        !woken(wakers, token).1.dom().contains(token),
        woken(woken(wakers, token).1, token).0 == Seq::<W>::empty(),
{
}

/// Nothing is left of a descriptor that was deleted.
pub proof fn lemma_deleted_is_forgotten<W>(m: ReactorModel<W>, fd: i32, ready: Readiness)
    requires
        fd >= 0,
        ready.fd == fd,
    ensures
        ({
            let wakers = m.wakers.remove(read_token(fd)).remove(write_token(fd));
            woken_by(wakers, ready) == (Seq::<W>::empty(), wakers)
        }),
{
    let wakers = m.wakers.remove(read_token(fd)).remove(write_token(fd));
    assert(Seq::<W>::empty() + Seq::<W>::empty() =~= Seq::<W>::empty());
}

/// The key of a direction of a descriptor.
pub open spec fn key(fd: i32, writing: bool) -> u64 {
    (2 * fd + if writing {
        1int
    } else {
        0
    }) as u64
}

/// The event reports that `fd` is ready in that direction. Bit 0 means reading, bit 2 writing.
pub open spec fn reports(ready: Readiness, fd: i32, writing: bool) -> bool {
    ready.fd == fd && if writing {
        ready.flags & 4 != 0
    } else {
        ready.flags & 1 != 0
    }
}

/// Whoever waits for what an event reports is woken and waits no longer, whatever else the event
/// reports; whoever waits for anything else is left alone, and nobody is woken twice.
pub proof fn lemma_event_wakes_its_waiters<W>(wakers: Map<u64, W>, ready: Readiness, fd: i32)
    requires
        ready.fd >= 0,
        fd >= 0,
    ensures
        forall|writing: bool| #[trigger]
            wakers.dom().contains(key(fd, writing)) && reports(ready, fd, writing) ==> {
                &&& woken_by(wakers, ready).0.contains(wakers[key(fd, writing)])
                &&& !woken_by(wakers, ready).1.dom().contains(key(fd, writing))
            },
        forall|writing: bool|
            !reports(ready, fd, writing) ==> {
                &&& #[trigger] woken_by(wakers, ready).1.dom().contains(key(fd, writing))
                    <==> wakers.dom().contains(key(fd, writing))
                &&& woken_by(wakers, ready).1[key(fd, writing)] == wakers[key(fd, writing)]
            },
        woken_by(wakers, ready).0.len() == (if wakers.dom().contains(key(ready.fd, false))
            && ready.flags & 1 != 0 {
            1int
        } else {
            0
        }) + (if wakers.dom().contains(key(ready.fd, true)) && ready.flags & 4 != 0 {
            1int
        } else {
            0
        }),
{
    let (got, left) = woken_by(wakers, ready);
    let (readers, rest) = if ready.flags & EPOLLIN != 0 {
        woken(wakers, read_token(ready.fd))
    } else {
        (Seq::empty(), wakers)
    };
    let (writers, last) = if ready.flags & EPOLLOUT != 0 {
        woken(rest, write_token(ready.fd))
    } else {
        (Seq::empty(), rest)
    };
    assert(got == readers + writers && left == last);
    assert forall|writing: bool| #[trigger]
        wakers.dom().contains(key(fd, writing)) && reports(ready, fd, writing) implies {
        &&& got.contains(wakers[key(fd, writing)])
        &&& !left.dom().contains(key(fd, writing))
    } by {
        if writing {
            assert(got[readers.len() as int] == wakers[key(fd, true)]);
        } else {
            assert(got[0] == wakers[key(fd, false)]);
        }
    }
}

/// Whoever waits for what any of a run of events reports is woken and waits no longer; whoever
/// waits for what none of them reports still waits.
pub proof fn lemma_events_wake_their_waiters<W>(
    wakers: Map<u64, W>,
    events: Seq<Readiness>,
    fd: i32,
    writing: bool,
)
    requires
        fd >= 0,
        forall|i: int| 0 <= i < events.len() ==> (#[trigger] events[i]).fd >= 0,
    ensures
        ({
            let (got, left) = woken_by_all(wakers, events);
            let k = key(fd, writing);
            &&& wakers.dom().contains(k) && (exists|i: int|
                0 <= i < events.len() && reports(#[trigger] events[i], fd, writing))
                ==> got.contains(wakers[k]) && !left.dom().contains(k)
            &&& (forall|i: int|
                0 <= i < events.len() ==> !reports(#[trigger] events[i], fd, writing)) ==> {
                &&& left.dom().contains(k) <==> wakers.dom().contains(k)
                &&& left[k] == wakers[k]
            }
            &&& !wakers.dom().contains(k) ==> !left.dom().contains(k)
        }),
    decreases events.len(),
{
    if events.len() > 0 {
        let earlier = events.drop_last();
        let last = events.last();
        assert forall|i: int| 0 <= i < earlier.len() implies (#[trigger] earlier[i]).fd >= 0 by {
            assert(earlier[i] == events[i]);
        }
        assert(events[events.len() - 1] == last);
        lemma_events_wake_their_waiters(wakers, earlier, fd, writing);
        let (before, mid) = woken_by_all(wakers, earlier);
        lemma_event_wakes_its_waiters(mid, last, fd);
        let (now, left) = woken_by(mid, last);
        let k = key(fd, writing);
        let got = before + now;
        assert(woken_by_all(wakers, events) == (got, left));
        let any = exists|i: int|
            0 <= i < events.len() && reports(#[trigger] events[i], fd, writing);
        let any_before = exists|i: int|
            0 <= i < earlier.len() && reports(#[trigger] earlier[i], fd, writing);
        if any_before {
            let i = choose|i: int|
                0 <= i < earlier.len() && reports(#[trigger] earlier[i], fd, writing);
            assert(events[i] == earlier[i]);
        }
        if any && !reports(last, fd, writing) {
            let i = choose|i: int|
                0 <= i < events.len() && reports(#[trigger] events[i], fd, writing);
            assert(earlier[i] == events[i]);
        }
        assert(forall|i: int| 0 <= i < earlier.len() ==> earlier[i] == #[trigger] events[i]);
        if wakers.dom().contains(k) && any {
            if any_before {
                let p = choose|p: int| 0 <= p < before.len() && before[p] == wakers[k];
                assert(got[p] == wakers[k]);
            } else {
                assert forall|i: int| 0 <= i < earlier.len() implies !reports(
                    #[trigger] earlier[i],
                    fd,
                    writing,
                ) by {}
                assert(mid.dom().contains(k) && mid[k] == wakers[k]);
                assert(now.contains(wakers[k]));
                let p = choose|p: int| 0 <= p < now.len() && now[p] == wakers[k];
                assert(got[before.len() + p] == wakers[k]);
            }
            if mid.dom().contains(k) {
                assert(!left.dom().contains(k));
            }
        }
        assert(reports(last, fd, writing) || (left.dom().contains(k) <==> mid.dom().contains(k)));
    }
}

/// A waker that waits for a direction of a descriptor is the one who is woken for it, from then
/// on that direction is reported, and nothing else changes.
pub proof fn lemma_waiter_is_kept<W>(m: ReactorModel<W>, fd: i32, waker: W, other: i32)
    requires
        fd >= 0,
        other >= 0,
    ensures
        ({
            let r = m.waits(fd, read_token(fd), EPOLLIN, waker);
            &&& r.wakers == m.wakers.insert(key(fd, false), waker)
            &&& r.mask(fd) == m.mask(fd) | 1
            &&& other != fd ==> r.mask(other) == m.mask(other)
        }),
        ({
            let w = m.waits(fd, write_token(fd), EPOLLOUT, waker);
            &&& w.wakers == m.wakers.insert(key(fd, true), waker)
            &&& w.mask(fd) == m.mask(fd) | 4
            &&& other != fd ==> w.mask(other) == m.mask(other)
        }),
{
}

/// A task that waits to read or to write is woken when its descriptor is reported ready for that.
pub proof fn lemma_waiting_task_is_woken<W>(m: ReactorModel<W>, fd: i32, waker: W, flags: u32)
    requires
        fd >= 0,
    ensures
        flags & 1 != 0 ==> woken_by(
            m.waits(fd, read_token(fd), EPOLLIN, waker).wakers,
            Readiness { fd, flags },
        ).0.contains(waker),
        flags & 4 != 0 ==> woken_by(
            m.waits(fd, write_token(fd), EPOLLOUT, waker).wakers,
            Readiness { fd, flags },
        ).0.contains(waker),
{
    let ready = Readiness { fd, flags };
    let r = m.waits(fd, read_token(fd), EPOLLIN, waker).wakers;
    let w = m.waits(fd, write_token(fd), EPOLLOUT, waker).wakers;
    lemma_event_wakes_its_waiters(r, ready, fd);
    lemma_event_wakes_its_waiters(w, ready, fd);
    assert(r.dom().contains(key(fd, false)) && r[key(fd, false)] == waker);
    assert(w.dom().contains(key(fd, true)) && w[key(fd, true)] == waker);
}

} // verus!
