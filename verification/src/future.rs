//! Bookkeeping of asynchronous replies from the editor: a reply is awaited by a [`Pong`]
//! (one value) or a [`PongStream`] (a queue of values), both keyed by an id from an [`IDFactory`].
//! The registry holds, for each id, the values delivered so far and the waker of the task
//! that waits for them.

use vstd::prelude::*;
use std::collections::HashMap;
use std::collections::VecDeque;

verus! {

broadcast use vstd::std_specs::hash::group_hash_axioms;

/// Source of ids, counting up from zero and wrapping around at `u64::MAX`.
pub struct IDFactory {
    counter: u64,
}

/// The counter after one more id was handed out.
pub open spec fn next_counter(c: u64) -> u64 {
    if c == u64::MAX { 0 } else { (c + 1) as u64 }
}

impl IDFactory {
    /// The id that the next call of `generate` hands out.
    pub closed spec fn next_id(&self) -> u64 {
        self.counter
    }

    /// A factory that starts at zero.
    pub fn new() -> (f: IDFactory)
        ensures
            f.next_id() == 0,
    {
        IDFactory { counter: 0 }
    }

    /// Hand out the next id.
    pub fn generate(&mut self) -> (id: u64)
        ensures
            id == old(self).next_id(),
            final(self).next_id() == next_counter(old(self).next_id()),
    {
        let id = self.counter;
        self.counter = if self.counter == u64::MAX { 0 } else { self.counter + 1 };
        id
    }
}

/// The outcome of polling: a value, or not yet.
pub enum Poll<T> {
    Ready(T),
    Pending,
}

/// The state kept for an awaited single value: the value once delivered, and the waker
/// of the task that waits for it.
pub type PacketChannelAwait<V, W> = (Option<V>, Option<W>);

/// The state kept for an awaited stream: the values delivered and not yet taken, and the
/// waker of the task that waits for them.
pub type PacketChannelStream<V, W> = (VecDeque<V>, Option<W>);

/// The abstract state of a stream channel.
pub type StreamState<V, W> = (Seq<V>, Option<W>);

/// What the registry of pending replies holds.
pub struct AsyncRegistry<V, W> {
    ids: IDFactory,
    ops: HashMap<u64, PacketChannelAwait<V, W>>,
    streams: HashMap<u64, PacketChannelStream<V, W>>,
}

/// Polling an awaited value, given its channel and the waker of the polling task:
/// the outcome and the channel afterwards (`None` once it is removed).
pub open spec fn poll_await<V, W>(ch: (Option<V>, Option<W>), waker: W) -> (Poll<V>, Option<(Option<V>, Option<W>)>) {
    match ch {
        (Some(v), _) => (Poll::Ready(v), None),
        (None, Some(w)) => (Poll::Pending, Some((None, Some(w)))),
        (None, None) => (Poll::Pending, Some((None, Some(waker)))),
    }
}

/// Polling a stream, given its channel and the waker of the polling task.
pub open spec fn poll_stream<V, W>(ch: StreamState<V, W>, waker: W) -> (Poll<Option<V>>, StreamState<V, W>) {
    if ch.0.len() > 0 {
        (Poll::Ready(Some(ch.0[0])), (ch.0.drop_first(), ch.1))
    } else {
        match ch.1 {
            Some(w) => (Poll::Pending, ch),
            None => (Poll::Pending, (ch.0, Some(waker))),
        }
    }
}

/// Delivering a value to an awaited channel: the channel afterwards and the waker to wake.
pub open spec fn deliver_await<V, W>(ch: (Option<V>, Option<W>), value: V) -> ((Option<V>, Option<W>), Option<W>) {
    ((Some(value), None), ch.1)
}

/// Delivering a value to a stream channel: the channel afterwards and the waker to wake.
pub open spec fn deliver_stream<V, W>(ch: StreamState<V, W>, value: V) -> (StreamState<V, W>, Option<W>) {
    ((ch.0.push(value), None), ch.1)
}

impl<V, W> AsyncRegistry<V, W> {
    /// The channels of awaited single values, by id.
    pub closed spec fn awaits(&self) -> Map<u64, (Option<V>, Option<W>)> {
        self.ops@
    }

    /// The channels of streams, by id.
    pub closed spec fn streams(&self) -> Map<u64, StreamState<V, W>> {
        Map::new(|k: u64| self.streams@.contains_key(k), |k: u64| (self.streams@[k].0@, self.streams@[k].1))
    }

    /// The id that the next registered channel gets.
    pub closed spec fn next_id(&self) -> u64 {
        self.ids.next_id()
    }

    /// Every registered channel has an id that was handed out before the next one.
    pub open spec fn ids_fresh(&self) -> bool {
        &&& forall|k: u64| #[trigger] self.awaits().contains_key(k) ==> k < self.next_id()
        &&& forall|k: u64| #[trigger] self.streams().contains_key(k) ==> k < self.next_id()
    }

    /// An empty registry.
    pub fn new() -> (r: Self)
        ensures
            r.awaits() == Map::<u64, (Option<V>, Option<W>)>::empty(),
            r.streams() == Map::<u64, StreamState<V, W>>::empty(),
            r.next_id() == 0,
            r.ids_fresh(),
    {
        let r = AsyncRegistry { ids: IDFactory::new(), ops: HashMap::new(), streams: HashMap::new() };
        assert(r.streams() =~= Map::<u64, StreamState<V, W>>::empty());
        r
    }

    /// A reply arrived for `aid`: store it for the awaiting [`Pong`] and hand back the waker
    /// to wake, if a task waits. Replies for ids that nobody awaits are dropped.
    pub fn deliver(&mut self, aid: u64, value: V) -> (waker: Option<W>)
        ensures
            old(self).awaits().contains_key(aid) ==> {
                let (ch, w) = deliver_await(old(self).awaits()[aid], value);
                &&& final(self).awaits() == old(self).awaits().insert(aid, ch)
                &&& waker == w
            },
            !old(self).awaits().contains_key(aid) ==> {
                &&& final(self).awaits() == old(self).awaits()
                &&& waker is None
            },
            final(self).streams() == old(self).streams(),
            final(self).next_id() == old(self).next_id(),
            old(self).ids_fresh() ==> final(self).ids_fresh(),
    {
        match self.ops.remove(&aid) {
            Some(ch) => {
                let (_, w) = ch;
                self.ops.insert(aid, (Some(value), None));
                proof {
                    assert(self.awaits() =~= old(self).awaits().insert(aid, (Some(value), None)));
                }
                w
            },
            None => {
                assert(self.awaits() =~= old(self).awaits());
                None
            },
        }
    }

    /// A value arrived for the stream `aid`: queue it and hand back the waker to wake, if a
    /// task waits. Values for ids that no stream awaits are dropped.
    pub fn deliver_stream(&mut self, aid: u64, value: V) -> (waker: Option<W>)
        ensures
            old(self).streams().contains_key(aid) ==> {
                let (ch, w) = deliver_stream(old(self).streams()[aid], value);
                &&& final(self).streams() == old(self).streams().insert(aid, ch)
                &&& waker == w
            },
            !old(self).streams().contains_key(aid) ==> {
                &&& final(self).streams() == old(self).streams()
                &&& waker is None
            },
            final(self).awaits() == old(self).awaits(),
            final(self).next_id() == old(self).next_id(),
            old(self).ids_fresh() ==> final(self).ids_fresh(),
    {
        match self.streams.remove(&aid) {
            Some(ch) => {
                let (mut que, w) = ch;
                que.push_back(value);
                self.streams.insert(aid, (que, None));
                proof {
                    let (nch, _) = deliver_stream(old(self).streams()[aid], value);
                    assert(self.streams() =~= old(self).streams().insert(aid, nch));
                }
                w
            },
            None => {
                assert(self.streams() =~= old(self).streams());
                None
            },
        }
    }
}

/// An awaited single reply.
pub struct Pong {
    id: u64,
}

impl Pong {
    pub closed spec fn id(&self) -> u64 {
        self.id
    }

    /// Register a new awaited reply under a fresh id.
    pub fn new<V, W>(reg: &mut AsyncRegistry<V, W>) -> (p: Pong)
        ensures
            p.id() == old(reg).next_id(),
            final(reg).next_id() == next_counter(old(reg).next_id()),
            final(reg).awaits() == old(reg).awaits().insert(p.id(), (None, None)),
            final(reg).streams() == old(reg).streams(),
            old(reg).ids_fresh() && old(reg).next_id() < u64::MAX ==> {
                &&& !old(reg).awaits().contains_key(p.id())
                &&& final(reg).ids_fresh()
            },
    {
        let id = reg.ids.generate();
        reg.ops.insert(id, (None, None));
        proof {
            if old(reg).ids_fresh() && old(reg).next_id() < u64::MAX {
                assert forall|k: u64| #[trigger] reg.awaits().contains_key(k) implies k < reg.next_id() by {
                    if k != id {
                        assert(old(reg).awaits().contains_key(k));
                    }
                }
                assert forall|k: u64| #[trigger] reg.streams().contains_key(k) implies k < reg.next_id() by {
                    assert(old(reg).streams().contains_key(k));
                }
            }
        }
        Pong { id }
    }

    /// The id under which the editor sends the reply.
    pub fn aid(&self) -> (id: u64)
        ensures
            id == self.id(),
    {
        self.id
    }

    /// Poll for the reply: it is taken and its channel removed once it has arrived;
    /// otherwise the waker is kept, unless one is kept already.
    pub fn poll<V, W>(&self, reg: &mut AsyncRegistry<V, W>, waker: W) -> (r: Poll<V>)
        requires
            old(reg).awaits().contains_key(self.id()),
        ensures
            ({
                let (out, ch) = poll_await(old(reg).awaits()[self.id()], waker);
                &&& r == out
                &&& final(reg).awaits() == match ch {
                    Some(c) => old(reg).awaits().insert(self.id(), c),
                    None => old(reg).awaits().remove(self.id()),
                }
            }),
            final(reg).streams() == old(reg).streams(),
            final(reg).next_id() == old(reg).next_id(),
            old(reg).ids_fresh() ==> final(reg).ids_fresh(),
    {
        let ch = reg.ops.remove(&self.id);
        match ch {
            Some((Some(v), _)) => {
                assert(reg.awaits() =~= old(reg).awaits().remove(self.id()));
                Poll::Ready(v)
            },
            Some((None, Some(w))) => {
                reg.ops.insert(self.id, (None, Some(w)));
                assert(reg.awaits() =~= old(reg).awaits().insert(self.id(), (None, Some(w))));
                Poll::Pending
            },
            Some((None, None)) => {
                reg.ops.insert(self.id, (None, Some(waker)));
                assert(reg.awaits() =~= old(reg).awaits().insert(self.id(), (None, Some(waker))));
                Poll::Pending
            },
            None => {
                assert(false);
                Poll::Pending
            },
        }
    }

    /// Poll for the reply, or `None` when no channel is registered under this id.
    pub fn try_poll<V, W>(&self, reg: &mut AsyncRegistry<V, W>, waker: W) -> (r: Option<Poll<V>>)
        ensures
            r is None == !old(reg).awaits().contains_key(self.id()),
            r is None ==> *final(reg) == *old(reg),
            r matches Some(out) ==> {
                let (o, ch) = poll_await(old(reg).awaits()[self.id()], waker);
                &&& out == o
                &&& final(reg).awaits() == match ch {
                    Some(c) => old(reg).awaits().insert(self.id(), c),
                    None => old(reg).awaits().remove(self.id()),
                }
                &&& final(reg).streams() == old(reg).streams()
                &&& final(reg).next_id() == old(reg).next_id()
            },
    {
        if reg.ops.contains_key(&self.id) {
            Some(self.poll(reg, waker))
        } else {
            None
        }
    }

    /// Stop awaiting: the channel is removed.
    pub fn close<V, W>(self, reg: &mut AsyncRegistry<V, W>)
        ensures
            final(reg).awaits() == old(reg).awaits().remove(self.id()),
            final(reg).streams() == old(reg).streams(),
            final(reg).next_id() == old(reg).next_id(),
            old(reg).ids_fresh() ==> final(reg).ids_fresh(),
    {
        reg.ops.remove(&self.id);
        assert(reg.awaits() =~= old(reg).awaits().remove(self.id()));
    }
}

/// An awaited stream of replies.
pub struct PongStream {
    id: u64,
}

impl PongStream {
    pub closed spec fn id(&self) -> u64 {
        self.id
    }

    /// Register a new stream under a fresh id.
    pub fn new<V, W>(reg: &mut AsyncRegistry<V, W>) -> (p: PongStream)
        ensures
            p.id() == old(reg).next_id(),
            final(reg).next_id() == next_counter(old(reg).next_id()),
            final(reg).streams() == old(reg).streams().insert(p.id(), (Seq::<V>::empty(), None::<W>)),
            final(reg).awaits() == old(reg).awaits(),
            old(reg).ids_fresh() && old(reg).next_id() < u64::MAX ==> {
                &&& !old(reg).streams().contains_key(p.id())
                &&& final(reg).ids_fresh()
            },
    {
        let id = reg.ids.generate();
        reg.streams.insert(id, (VecDeque::new(), None));
        assert(reg.streams() =~= old(reg).streams().insert(id, (Seq::<V>::empty(), None::<W>)));
        PongStream { id }
    }

    /// The id under which the editor sends the values.
    pub fn aid(&self) -> (id: u64)
        ensures
            id == self.id(),
    {
        self.id
    }

    /// Poll for the next value: the oldest queued value is taken if there is one;
    /// otherwise the waker is kept, unless one is kept already.
    pub fn poll_next<V, W>(&self, reg: &mut AsyncRegistry<V, W>, waker: W) -> (r: Poll<Option<V>>)
        requires
            old(reg).streams().contains_key(self.id()),
        ensures
            ({
                let (out, ch) = poll_stream(old(reg).streams()[self.id()], waker);
                &&& r == out
                &&& final(reg).streams() == old(reg).streams().insert(self.id(), ch)
            }),
            final(reg).awaits() == old(reg).awaits(),
            final(reg).next_id() == old(reg).next_id(),
            old(reg).ids_fresh() ==> final(reg).ids_fresh(),
    {
        let ch = reg.streams.remove(&self.id);
        match ch {
            Some((mut que, w)) => {
                let ghost q0 = que@;
                if que.len() > 0 {
                    let v = que.pop_front();
                    match v {
                        Some(v) => {
                            reg.streams.insert(self.id, (que, w));
                            proof {
                                let (_, nch) = poll_stream(old(reg).streams()[self.id()], waker);
                                assert(nch.0 =~= q0.drop_first());
                                assert(reg.streams() =~= old(reg).streams().insert(self.id(), nch));
                            }
                            Poll::Ready(Some(v))
                        },
                        None => {
                            assert(false);
                            Poll::Pending
                        },
                    }
                } else {
                    match w {
                        Some(w) => {
                            reg.streams.insert(self.id, (que, Some(w)));
                            proof {
                                let (_, nch) = poll_stream(old(reg).streams()[self.id()], waker);
                                assert(reg.streams() =~= old(reg).streams().insert(self.id(), nch));
                            }
                            Poll::Pending
                        },
                        None => {
                            reg.streams.insert(self.id, (que, Some(waker)));
                            proof {
                                let (_, nch) = poll_stream(old(reg).streams()[self.id()], waker);
                                assert(reg.streams() =~= old(reg).streams().insert(self.id(), nch));
                            }
                            Poll::Pending
                        },
                    }
                }
            },
            None => {
                assert(false);
                Poll::Pending
            },
        }
    }

    /// Poll for the next value, or `None` when no stream is registered under this id.
    pub fn try_poll_next<V, W>(&self, reg: &mut AsyncRegistry<V, W>, waker: W) -> (r: Option<Poll<Option<V>>>)
        ensures
            r is None == !old(reg).streams().contains_key(self.id()),
            r is None ==> *final(reg) == *old(reg),
            r matches Some(out) ==> {
                let (o, ch) = poll_stream(old(reg).streams()[self.id()], waker);
                &&& out == o
                &&& final(reg).streams() == old(reg).streams().insert(self.id(), ch)
                &&& final(reg).awaits() == old(reg).awaits()
                &&& final(reg).next_id() == old(reg).next_id()
            },
    {
        if reg.streams.contains_key(&self.id) {
            Some(self.poll_next(reg, waker))
        } else {
            None
        }
    }

    /// Stop listening: the channel is removed.
    pub fn close<V, W>(self, reg: &mut AsyncRegistry<V, W>)
        ensures
            final(reg).streams() == old(reg).streams().remove(self.id()),
            final(reg).awaits() == old(reg).awaits(),
            final(reg).next_id() == old(reg).next_id(),
            old(reg).ids_fresh() ==> final(reg).ids_fresh(),
    {
        reg.streams.remove(&self.id);
        assert(reg.streams() =~= old(reg).streams().remove(self.id()));
    }
}

/// The counter after `k` ids were handed out from `n`.
pub open spec fn counter_after(n: u64, k: nat) -> u64
    decreases k,
{
    if k == 0 {
        n
    } else {
        next_counter(counter_after(n, (k - 1) as nat))
    }
}

/// Handing out `k` ids from `n`, where `n + k` does not pass `2^64`, gives `n, n + 1, ...,
/// n + k - 1` in turn, and leaves the counter at `n + k` (at zero when that is `2^64`).
/// This holds of an [`IDFactory`] and of the registry, whose `Pong::new` and
/// `PongStream::new` take their ids from one counter.
pub proof fn law_ids_in_sequence(n: u64, k: nat, i: nat)
    requires
        n + k <= u64::MAX + 1,
        i <= k,
    ensures
        i < k ==> counter_after(n, i) == n + i,
        counter_after(n, k) == (if n + k == u64::MAX + 1 { 0 } else { n + k }),
    decreases k,
{
    if k > 0 {
        law_ids_in_sequence(n, (k - 1) as nat, if i == k { (k - 1) as nat } else { i });
        if i < k - 1 {
            law_ids_in_sequence(n, (k - 1) as nat, i);
        }
    }
}

/// Ids handed out one after another never repeat, as long as fewer than `2^64` were handed
/// out from the start.
pub proof fn law_ids_never_repeat(n: u64, k: nat, i: nat, j: nat)
    requires
        n + k <= u64::MAX + 1,
        i < j < k,
    ensures
        counter_after(n, i) != counter_after(n, j),
{
    law_ids_in_sequence(n, k, i);
    law_ids_in_sequence(n, k, j);
}

/// The ids handed out by `k` calls from `n`.
pub open spec fn ids_handed_out(n: u64, k: nat) -> Set<int> {
    Set::new(|x: int| exists|i: nat| i < k && x == #[trigger] counter_after(n, i))
}

/// The ids handed out by `k` calls from `n`, where `n + k` does not pass `2^64`, are exactly
/// the numbers from `n` to `n + k - 1`: none is missing and none comes twice. Every order in
/// which the calls happen is one sequence of calls on the counter, so this holds whichever
/// caller gets which id.
pub proof fn law_ids_cover_range(n: u64, k: nat)
    requires
        n + k <= u64::MAX + 1,
    ensures
        ids_handed_out(n, k) == Set::new(|x: int| n <= x < n + k),
        forall|i: nat, j: nat| i < j < k ==> counter_after(n, i) != counter_after(n, j),
{
    let range = Set::new(|x: int| n <= x < n + k);
    assert forall|x: int| #[trigger] ids_handed_out(n, k).contains(x) == range.contains(x) by {
        if n <= x < n + k {
            law_ids_in_sequence(n, k, (x - n) as nat);
        }
        if ids_handed_out(n, k).contains(x) {
            let i = choose|i: nat| i < k && x == #[trigger] counter_after(n, i);
            law_ids_in_sequence(n, k, i);
        }
    }
    assert(ids_handed_out(n, k) =~= range);
    assert forall|i: nat, j: nat| i < j < k implies counter_after(n, i) != counter_after(n, j) by {
        law_ids_never_repeat(n, k, i, j);
    }
}

/// A value delivered to an awaited reply is what the next poll returns, and the channel
/// is then removed.
pub proof fn law_delivered_value_is_polled<V, W>(ch: (Option<V>, Option<W>), value: V, waker: W)
    ensures
        poll_await(deliver_await(ch, value).0, waker) == (Poll::<V>::Ready(value), None::<(Option<V>, Option<W>)>),
{
}

/// A task that polled before the reply arrived is woken when it arrives: the delivery hands
/// back the waker that the poll left in the channel.
pub proof fn law_pending_poll_is_woken<V, W>(ch: (Option<V>, Option<W>), value: V, waker: W)
    requires
        ch.0 is None,
    ensures
        poll_await(ch, waker).0 is Pending,
        poll_await(ch, waker).1 is Some,
        deliver_await(poll_await(ch, waker).1->0, value).1 == Some(
            match ch.1 {
                Some(w) => w,
                None => waker,
            },
        ),
{
}

/// A stream hands out the values in the order in which they were delivered.
pub proof fn law_stream_is_fifo<V, W>(ch: StreamState<V, W>, a: V, b: V, w1: W, w2: W)
    requires
        ch.0.len() == 0,
    ensures
        ({
            let s1 = deliver_stream(deliver_stream(ch, a).0, b).0;
            let (first, s2) = poll_stream(s1, w1);
            let (second, s3) = poll_stream(s2, w2);
            &&& first == Poll::Ready(Some(a))
            &&& second == Poll::Ready(Some(b))
            &&& s3.0.len() == 0
        }),
{
    let s1 = deliver_stream(deliver_stream(ch, a).0, b).0;
    assert(s1.0 =~= seq![a, b]);
    let (first, s2) = poll_stream(s1, w1);
    assert(s2.0 =~= seq![b]);
}

/// A stream never drops a value: polling takes the oldest queued value and keeps the rest.
pub proof fn law_stream_keeps_queue<V, W>(ch: StreamState<V, W>, v: V, waker: W)
    ensures
        ({
            let (out, after) = poll_stream(deliver_stream(ch, v).0, waker);
            &&& out == Poll::Ready(Some((ch.0.push(v))[0]))
            &&& after.0 == ch.0.push(v).drop_first()
        }),
{
}

} // verus!
