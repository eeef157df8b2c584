//! The observer that keeps every envelope, for tests.

use vstd::prelude::*;

use crate::callsite::ObsCallsite;
use crate::envelope::ObsEnvelope;
use crate::registry::{SchemaRegistry, ScrubbedEnvelope};
use crate::sink::in_memory::{self, InMemoryHandle, InMemorySink};

verus! {

/// The observer that keeps every envelope, as it was emitted.
#[derive(Debug)]
pub struct InMemoryObserver {
    sink: InMemorySink,
    registry: SchemaRegistry,
}

impl View for InMemoryObserver {
    type V = in_memory::RingView;

    closed spec fn view(&self) -> in_memory::RingView {
        self.sink@
    }
}

impl Default for InMemoryObserver {
    fn default() -> (r: Self)
        ensures
            r@ == in_memory::empty_ring(in_memory::DEFAULT_CAPACITY as nat),
    {
        InMemoryObserver::new()
    }
}

impl InMemoryObserver {
    /// An observer that keeps as many envelopes as a sink does by default.
    #[must_use]
    pub fn new() -> (r: Self)
        ensures
            r@ == in_memory::empty_ring(in_memory::DEFAULT_CAPACITY as nat),
    {
        InMemoryObserver { sink: InMemorySink::new(), registry: SchemaRegistry::empty() }
    }

    /// An observer that keeps its envelopes in this sink.
    #[must_use]
    pub fn with_sink(sink: InMemorySink) -> (r: Self)
        ensures
            r@ == sink@,
    {
        InMemoryObserver { sink, registry: SchemaRegistry::empty() }
    }

    /// The envelopes that it keeps.
    pub fn handle(&mut self) -> (r: &mut InMemoryHandle)
        ensures
            r@ == old(self)@,
            final(self)@ == final(r)@,
    {
        self.sink.handle()
    }

    /// Keeps an envelope.
    pub fn emit_envelope(&mut self, env: ObsEnvelope)
        ensures
            final(self)@ == in_memory::ring_pushed(old(self)@, env@),
    {
        let scrubbed = ScrubbedEnvelope::pass_through(&env, &self.registry);
        self.sink.deliver(scrubbed);
    }

    /// Every emit site is of interest.
    pub fn enabled(&self, callsite: &ObsCallsite) -> (r: bool)
        ensures
            r,
    {
        true
    }
}

} // verus!
