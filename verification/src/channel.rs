//! A queue between the tasks of one thread.
//!
//! A sender wakes the receiver that waits; the receiver finds the end when the last sender is
//! gone. `W` is the waker type.
//!
//! The two ends are handles that share one channel. What a handle does to the channel when it is
//! cloned, used or dropped stands here, as functions of the end it belongs to; the handles
//! themselves, which only share, belong to the program.

use std::collections::VecDeque;
use vstd::prelude::*;

use crate::poll::Polled;

verus! {

/// What the two ends share.
pub struct Channel<T, W> {
    queue: VecDeque<T>,
    waker: Option<W>,
    sender_count: usize,
}

/// A channel as a mathematical value.
#[verifier::ext_equal]
pub struct ChannelModel<T, W> {
    pub queue: Seq<T>,
    pub waker: Option<W>,
    pub senders: nat,
}

impl<T, W> View for Channel<T, W> {
    type V = ChannelModel<T, W>;

    closed spec fn view(&self) -> ChannelModel<T, W> {
        ChannelModel {
            queue: self.queue@,
            waker: self.waker,
            senders: self.sender_count as nat,
        }
    }
}

impl<T, W> ChannelModel<T, W> {
    /// The channel after an item was sent.
    pub open spec fn sent(self, item: T) -> ChannelModel<T, W> {
        ChannelModel { queue: self.queue.push(item), waker: None, ..self }
    }

    /// The channel after another sender was made.
    pub open spec fn joined(self) -> ChannelModel<T, W> {
        ChannelModel { senders: self.senders + 1, ..self }
    }

    /// The channel after a sender is gone.
    pub open spec fn left(self) -> ChannelModel<T, W> {
        if self.senders <= 1 {
            ChannelModel { senders: 0, waker: None, ..self }
        } else {
            ChannelModel { senders: (self.senders - 1) as nat, ..self }
        }
    }

    /// What the receiver finds, and the channel afterwards.
    pub open spec fn polled(self, waker: W) -> (Polled<Option<T>>, ChannelModel<T, W>) {
        if self.queue.len() > 0 {
            (
                Polled::Ready(Some(self.queue[0])),
                ChannelModel { queue: self.queue.skip(1), ..self },
            )
        } else if self.senders == 0 {
            (Polled::Ready(None), self)
        } else {
            (Polled::Pending, ChannelModel { waker: Some(waker), ..self })
        }
    }
}

/// A channel with nothing in it, for one sender and its receiver.
pub fn local_channel<T, W>() -> (r: Channel<T, W>)
    ensures
        r@ == (ChannelModel::<T, W> { queue: Seq::empty(), waker: None, senders: 1 }),
{
    Channel { queue: VecDeque::new(), waker: None, sender_count: 1 }
}

impl<T, W> Channel<T, W> {
    /// The number of senders.
    pub fn senders(&self) -> (r: usize)
        ensures
            r == self@.senders,
    {
        self.sender_count
    }
}

/// The sending end: what becomes of a channel when a handle of its sender is cloned, dropped or
/// used.
pub struct LocalSender {}

/// The receiving end: what becomes of a channel when its receiver is polled.
pub struct LocalReceiver {}

impl LocalSender {
    /// A sender's handle is cloned: there is one sender more.
    pub fn clone_handle<T, W>(channel: &mut Channel<T, W>)
        requires
            old(channel)@.senders < usize::MAX,
        ensures
            final(channel)@ == old(channel)@.joined(),
    {
        channel.sender_count = channel.sender_count + 1;
    }

    /// A sender's handle is dropped. With the last one the channel is closed: returns the waker
    /// of a receiver that waits, which is to be woken.
    pub fn drop_handle<T, W>(channel: &mut Channel<T, W>) -> (r: Option<W>)
        ensures
            final(channel)@ == old(channel)@.left(),
            r == (if old(channel)@.senders <= 1 {
                old(channel)@.waker
            } else {
                None
            }),
    {
        let count = channel.sender_count;
        if count <= 1 {
            channel.sender_count = 0;
            channel.waker.take()
        } else {
            channel.sender_count = count - 1;
            None
        }
    }

    /// Adds an item behind all others. Returns the waker of a receiver that waits, which is to be
    /// woken.
    pub fn send<T, W>(channel: &mut Channel<T, W>, item: T) -> (r: Option<W>)
        ensures
            final(channel)@ == old(channel)@.sent(item),
            r == old(channel)@.waker,
    {
        channel.queue.push_back(item);
        channel.waker.take()
    }
}

impl LocalReceiver {
    /// Takes the oldest item. `None` when there is none and no sender is left; otherwise the
    /// receiver waits with `waker`.
    pub fn poll<T, W>(channel: &mut Channel<T, W>, waker: W) -> (r: Polled<Option<T>>)
        ensures
            r == old(channel)@.polled(waker).0,
            final(channel)@ == old(channel)@.polled(waker).1,
    {
        let ghost before = channel@;
        match channel.queue.pop_front() {
            Some(item) => {
                assert(channel@ =~= before.polled(waker).1);
                Polled::Ready(Some(item))
            },
            None => {
                if channel.sender_count == 0 {
                    Polled::Ready(None)
                } else {
                    channel.waker = Some(waker);
                    Polled::Pending
                }
            },
        }
    }
}

/// A receiver that waits is woken by the next item and by the end: its waker stays in the
/// channel until a sender takes it out to wake it.
pub proof fn lemma_waiting_receiver_is_woken<T, W>(c: ChannelModel<T, W>, waker: W, item: T)
    requires
        c.polled(waker).0 is Pending,
    ensures
        ({
            let waiting = c.polled(waker).1;
            &&& waiting.waker == Some(waker)
            &&& waiting.joined().waker == Some(waker)
            &&& waiting.senders > 1 ==> waiting.left().waker == Some(waker)
            &&& waiting.sent(item).polled(waker).0 == Polled::Ready(Some(item))
            &&& waiting.senders <= 1 ==> waiting.left().polled(waker).0
                == Polled::<Option<T>>::Ready(None)
        }),
{
}

/// A channel that is closed and empty stays so.
pub proof fn lemma_end_is_final<T, W>(c: ChannelModel<T, W>, waker: W)
    requires
        c.polled(waker).0 == Polled::<Option<T>>::Ready(None),
    ensures
        c.polled(waker).1 == c,
{
}

/// One call on a channel.
pub enum ChannelCall<T> {
    Send(T),
    Join,
    Leave,
    Poll,
}

/// What passed through a channel: the items sent, the items received, and the channel.
pub struct Passage<T, W> {
    pub sent: Seq<T>,
    pub received: Seq<T>,
    pub channel: ChannelModel<T, W>,
}

/// What has passed through a new channel after `calls`.
pub open spec fn passage<T, W>(calls: Seq<ChannelCall<T>>, waker: W) -> Passage<T, W>
    decreases calls.len(),
{
    if calls.len() == 0 {
        Passage {
            sent: Seq::empty(),
            received: Seq::empty(),
            channel: ChannelModel { queue: Seq::empty(), waker: None, senders: 1 },
        }
    } else {
        let p = passage(calls.drop_last(), waker);
        match calls.last() {
            ChannelCall::Send(item) => Passage {
                sent: p.sent.push(item),
                channel: p.channel.sent(item),
                ..p
            },
            ChannelCall::Join => Passage { channel: p.channel.joined(), ..p },
            ChannelCall::Leave => Passage { channel: p.channel.left(), ..p },
            ChannelCall::Poll => {
                let (r, next) = p.channel.polled(waker);
                Passage {
                    received: match r {
                        Polled::Ready(Some(item)) => p.received.push(item),
                        _ => p.received,
                    },
                    channel: next,
                    ..p
                }
            },
        }
    }
}

/// Items come out in the order in which they went in, and none is lost: what was received,
/// followed by what is queued, is what was sent.
pub proof fn lemma_items_keep_their_order<T, W>(calls: Seq<ChannelCall<T>>, waker: W)
    ensures
        passage(calls, waker).received + passage(calls, waker).channel.queue == passage(
            calls,
            waker,
        ).sent,
    decreases calls.len(),
{
    if calls.len() > 0 {
        lemma_items_keep_their_order(calls.drop_last(), waker);
        let p = passage(calls.drop_last(), waker);
        let q = passage(calls, waker);
        match calls.last() {
            ChannelCall::Send(item) => {
                assert(q.received + q.channel.queue =~= (p.received + p.channel.queue).push(item));
            },
            ChannelCall::Poll => {
                assert(q.received + q.channel.queue =~= p.received + p.channel.queue);
            },
            _ => {},
        }
    }
}

/// An item that is sent stands last and nothing before it moves; a receiver that waits is told,
/// and the senders stay.
pub proof fn lemma_sent_item_stands_last<T, W>(c: ChannelModel<T, W>, item: T, k: int)
    ensures
        c.sent(item).queue.len() == c.queue.len() + 1,
        c.sent(item).queue.last() == item,
        0 <= k < c.queue.len() ==> c.sent(item).queue[k] == c.queue[k],
        c.sent(item).waker is None,
        c.sent(item).senders == c.senders,
{
}

/// Senders are counted one by one, and only the last that leaves closes the channel: then a
/// receiver that waits is told. What is queued stays.
pub proof fn lemma_senders_are_counted<T, W>(c: ChannelModel<T, W>)
    ensures
        c.joined().senders == c.senders + 1,
        c.joined().queue == c.queue && c.joined().waker == c.waker,
        c.joined().left().senders == c.senders,
        c.senders > 0 ==> c.left().senders == c.senders - 1,
        c.senders == 0 ==> c.left().senders == 0,
        c.left().queue == c.queue,
        c.senders > 1 ==> c.left().waker == c.waker,
        c.senders <= 1 ==> c.left().waker is None,
{
}

/// A receiver gets the oldest item if there is one; it finds the end if and only if there is none
/// and no sender is left; otherwise it waits.
pub proof fn lemma_receiver_gets_what_there_is<T, W>(c: ChannelModel<T, W>, waker: W, k: int)
    ensures
        ({
            let (r, after) = c.polled(waker);
            &&& r is Pending <==> c.queue.len() == 0 && c.senders > 0
            &&& r == Polled::<Option<T>>::Ready(None) <==> c.queue.len() == 0 && c.senders == 0
            &&& c.queue.len() > 0 ==> r == Polled::Ready(Some(c.queue[0])) && after.queue.len()
                == c.queue.len() - 1
            &&& 0 <= k < c.queue.len() - 1 ==> after.queue[k] == c.queue[k + 1]
            &&& c.queue.len() == 0 ==> after.queue == c.queue
            &&& r is Pending ==> after.waker == Some(waker)
            &&& !(r is Pending) ==> after.waker == c.waker
            &&& after.senders == c.senders
        }),
{
}

} // verus!
