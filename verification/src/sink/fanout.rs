//! The sink that hands each envelope to several others.

use vstd::prelude::*;

verus! {

/// Several sinks, each of which gets every envelope; there is at least one.
#[derive(Debug)]
pub struct FanOutSink<S> {
    sinks: Vec<S>,
}

impl<S> View for FanOutSink<S> {
    type V = Seq<S>;

    closed spec fn view(&self) -> Seq<S> {
        self.sinks@
    }
}

impl<S> FanOutSink<S> {
    #[verifier::type_invariant]
    spec fn has_a_child(self) -> bool {
        self.sinks@.len() > 0
    }

    /// Puts sinks together. There must be one: without any, every envelope
    /// would be lost.
    #[must_use]
    pub fn new(sinks: Vec<S>) -> (r: Self)
        requires
            sinks@.len() > 0,
        ensures
            r@ == sinks@,
    {
        FanOutSink { sinks }
    }

    /// How many sinks there are.
    #[must_use]
    pub fn children(&self) -> (n: usize)
        ensures
            n == self@.len(),
            n > 0,
    {
        proof {
            use_type_invariant(self);
        }
        self.sinks.len()
    }

    /// The sink at a place, in the order in which they are served.
    pub fn child(&self, i: usize) -> (r: &S)
        requires
            i < self@.len(),
        ensures
            *r == self@[i as int],
    {
        &self.sinks[i]
    }
}

} // verus!
