//! The sink that keeps envelopes in a ring, for tests.

use std::collections::VecDeque;

use vstd::prelude::*;

use crate::envelope::{EnvelopeView, ObsEnvelope};
use crate::registry::ScrubbedEnvelope;
use crate::scope::frame;

verus! {

/// How many envelopes a ring keeps by default.
pub const DEFAULT_CAPACITY: usize = 1024;

/// A ring of envelopes.
pub struct RingView {
    /// How many envelopes it keeps.
    pub capacity: nat,
    /// The envelopes, oldest first.
    pub items: Seq<EnvelopeView>,
}

/// A ring that keeps nothing yet.
pub open spec fn empty_ring(capacity: nat) -> RingView {
    RingView { capacity, items: Seq::empty() }
}

/// The ring with one more envelope, for which the oldest goes where there is
/// no room. The newest is always kept.
pub open spec fn ring_pushed(ring: RingView, env: EnvelopeView) -> RingView {
    let room = if ring.items.len() >= ring.capacity && ring.items.len() > 0 {
        ring.items.skip(1)
    } else {
        ring.items
    };
    RingView { items: room.push(env), ..ring }
}

/// The ring after someone asked for so many envelopes: empty where there were
/// enough, and otherwise as it was.
pub open spec fn ring_polled(ring: RingView, min_count: nat) -> RingView {
    if ring.items.len() >= min_count {
        empty_ring(ring.capacity)
    } else {
        ring
    }
}

/// What a handle says to one who waits for envelopes.
#[derive(Debug)]
pub enum Waiting {
    /// There are enough: these.
    Ready(Vec<ObsEnvelope>),
    /// The time is up.
    TimedOut,
    /// Ask again.
    Again,
}

/// The envelopes of a sink.
#[derive(Debug)]
pub struct InMemoryHandle {
    capacity: usize,
    buffer: VecDeque<ObsEnvelope>,
}

impl View for InMemoryHandle {
    type V = RingView;

    closed spec fn view(&self) -> RingView {
        RingView { capacity: self.capacity as nat, items: frame::envelope_views(self.buffer@) }
    }
}

impl InMemoryHandle {
    fn with_capacity(capacity: usize) -> (r: Self)
        ensures
            r@ == empty_ring(capacity as nat),
    {
        let r = InMemoryHandle { capacity, buffer: VecDeque::new() };
        proof {
            assert(r@.items =~= Seq::<EnvelopeView>::empty());
        }
        r
    }

    fn push(&mut self, env: ObsEnvelope)
        ensures
            final(self)@ == ring_pushed(old(self)@, env@),
    {
        let ghost start = self.buffer@;
        let ghost new = env@;
        if self.buffer.len() >= self.capacity {
            let oldest = self.buffer.pop_front();
        }
        let ghost room = self.buffer@;
        proof {
            if start.len() >= self.capacity && start.len() > 0 {
                assert(room =~= start.skip(1));
                assert(frame::envelope_views(room) =~= frame::envelope_views(start).skip(1));
            }
        }
        self.buffer.push_back(env);
        proof {
            assert(frame::envelope_views(self.buffer@) =~= frame::envelope_views(room).push(new));
        }
    }

    /// Hands out the envelopes, oldest first.
    #[must_use]
    pub fn drain(&mut self) -> (r: Vec<ObsEnvelope>)
        ensures
            frame::envelope_views(r@) == old(self)@.items,
            final(self)@ == empty_ring(old(self)@.capacity),
    {
        let mut out: Vec<ObsEnvelope> = Vec::new();
        let ghost all = self.buffer@;
        let ghost capacity = self.capacity;
        proof {
            assert(out@ + all =~= all);
        }
        while self.buffer.len() > 0
            invariant
                out@ + self.buffer@ == all,
                self.capacity == capacity,
            decreases self.buffer@.len(),
        {
            let ghost left = self.buffer@;
            let ghost was = out@;
            if let Some(env) = self.buffer.pop_front() {
                out.push(env);
                proof {
                    assert(out@ + self.buffer@ =~= was + left);
                }
            }
        }
        proof {
            assert(out@ + self.buffer@ =~= out@);
            assert(frame::envelope_views(self.buffer@) =~= Seq::<EnvelopeView>::empty());
        }
        out
    }

    /// How many envelopes there are.
    #[must_use]
    pub fn count(&self) -> (n: usize)
        ensures
            n == self@.items.len(),
    {
        self.buffer.len()
    }

    /// Copies of the envelopes, oldest first.
    #[must_use]
    pub fn snapshot(&self) -> (r: Vec<ObsEnvelope>)
        ensures
            frame::envelope_views(r@) == self@.items,
    {
        let mut out: Vec<ObsEnvelope> = Vec::new();
        let mut i: usize = 0;
        while i < self.buffer.len()
            invariant
                i <= self.buffer@.len(),
                frame::envelope_views(out@) =~= frame::envelope_views(self.buffer@).take(i as int),
            decreases self.buffer@.len() - i,
        {
            let env = self.buffer[i].clone();
            let ghost was = out@;
            let ghost new = env@;
            out.push(env);
            proof {
                assert(frame::envelope_views(out@) =~= frame::envelope_views(was).push(new));
            }
            i = i + 1;
        }
        out
    }

    /// Hands out the envelopes where there are at least `min_count`; else says
    /// whether to ask again.
    pub fn poll_for(&mut self, min_count: usize, expired: bool) -> (r: Waiting)
        ensures
            old(self)@.items.len() >= min_count ==> {
                &&& r matches Waiting::Ready(list)
                &&& frame::envelope_views(list@) == old(self)@.items
                &&& final(self)@ == empty_ring(old(self)@.capacity)
            },
            old(self)@.items.len() < min_count ==> {
                &&& r == (if expired {
                    Waiting::TimedOut
                } else {
                    Waiting::Again
                })
                &&& final(self)@ == old(self)@
            },
            final(self)@ == ring_polled(old(self)@, min_count as nat),
            r is Ready <==> old(self)@.items.len() >= min_count,
            r is TimedOut ==> expired,
            r is Again ==> !expired,
    {
        if self.count() >= min_count {
            return Waiting::Ready(self.drain());
        }
        if expired {
            Waiting::TimedOut
        } else {
            Waiting::Again
        }
    }
}

/// The sink that keeps envelopes.
#[derive(Debug)]
pub struct InMemorySink {
    inner: InMemoryHandle,
}

impl View for InMemorySink {
    type V = RingView;

    closed spec fn view(&self) -> RingView {
        self.inner@
    }
}

impl Default for InMemorySink {
    fn default() -> (r: Self)
        ensures
            r@ == empty_ring(DEFAULT_CAPACITY as nat),
    {
        InMemorySink::new()
    }
}

impl InMemorySink {
    /// A sink that keeps as many envelopes as is usual.
    #[must_use]
    pub fn new() -> (r: Self)
        ensures
            r@ == empty_ring(DEFAULT_CAPACITY as nat),
    {
        InMemorySink::with_capacity(DEFAULT_CAPACITY)
    }

    /// A sink that keeps so many envelopes.
    #[must_use]
    pub fn with_capacity(capacity: usize) -> (r: Self)
        ensures
            r@ == empty_ring(capacity as nat),
    {
        InMemorySink { inner: InMemoryHandle::with_capacity(capacity) }
    }

    /// The envelopes that it keeps.
    pub fn handle(&mut self) -> (r: &mut InMemoryHandle)
        ensures
            r@ == old(self)@,
            final(self)@ == final(r)@,
    {
        &mut self.inner
    }

    /// Keeps an envelope.
    pub fn deliver(&mut self, env: ScrubbedEnvelope<'_>)
        ensures
            final(self)@ == ring_pushed(old(self)@, env@.envelope),
    {
        self.inner.push(env.envelope().clone());
    }
}

/// The ring after several envelopes, one after the other.
pub open spec fn ring_after(ring: RingView, list: Seq<EnvelopeView>) -> RingView
    decreases list.len(),
{
    if list.len() == 0 {
        ring
    } else {
        ring_pushed(ring_after(ring, list.drop_last()), list.last())
    }
}

/// A ring never grows beyond its capacity, and holds the latest envelopes in
/// the order in which they came.
pub proof fn law_ring_holds_the_latest(capacity: nat, list: Seq<EnvelopeView>)
    requires
        capacity > 0,
    ensures
        ring_after(empty_ring(capacity), list).items == (if list.len() <= capacity {
            list
        } else {
            list.skip(list.len() - capacity)
        }),
        ring_after(empty_ring(capacity), list).capacity == capacity,
    decreases list.len(),
{
    if list.len() == 0 {
        assert(list =~= Seq::<EnvelopeView>::empty());
    } else {
        law_ring_holds_the_latest(capacity, list.drop_last());
        let before = ring_after(empty_ring(capacity), list.drop_last()).items;
        let after = ring_after(empty_ring(capacity), list).items;
        if list.len() <= capacity {
            assert(after =~= list);
        } else {
            if list.len() == capacity + 1 {
                assert(before =~= list.drop_last());
            }
            assert(after =~= list.skip(list.len() - capacity));
        }
    }
}

/// A ring takes an envelope as its last; where it is full the first one goes,
/// and only that.
pub proof fn law_the_first_makes_room(ring: RingView, env: EnvelopeView)
    ensures
        ring_pushed(ring, env).items.last() == env,
        ring_pushed(ring, env).capacity == ring.capacity,
        ring.items.len() < ring.capacity ==> ring_pushed(ring, env).items.drop_last() == ring.items,
        ring.items.len() >= ring.capacity && ring.items.len() > 0 ==> ring_pushed(
            ring,
            env,
        ).items.drop_last() == ring.items.skip(1),
        empty_ring(ring.capacity).items.len() == 0,
        empty_ring(ring.capacity).capacity == ring.capacity,
{
    let now = ring_pushed(ring, env).items;
    if ring.items.len() < ring.capacity {
        assert(now.drop_last() =~= ring.items);
    } else if ring.items.len() > 0 {
        assert(now.drop_last() =~= ring.items.skip(1));
    }
}

/// Asking for more envelopes than there are takes none away; asking for no more
/// than there are takes all.
pub proof fn law_asking_for_too_many_takes_none(ring: RingView, min_count: nat)
    ensures
        min_count > ring.items.len() ==> ring_polled(ring, min_count) == ring,
        min_count <= ring.items.len() ==> ring_polled(ring, min_count).items.len() == 0,
        ring_polled(ring, min_count).capacity == ring.capacity,
{
}

} // verus!
