//! The sink that drops every envelope.

use vstd::prelude::*;

verus! {

/// The sink that drops every envelope.
#[derive(Debug, Clone, Copy, PartialEq, Eq, Structural, Default)]
pub struct NoopSink;

} // verus!
