//! The observer that drops every envelope.

use vstd::prelude::*;

use crate::callsite::ObsCallsite;

verus! {

/// The observer that drops every envelope.
#[derive(Debug, Clone, Copy, PartialEq, Eq, Structural, Default)]
pub struct NoopObserver;

impl NoopObserver {
    /// No emit site is of interest.
    pub fn enabled(&self, callsite: &ObsCallsite) -> (r: bool)
        ensures
            !r,
    {
        false
    }
}

} // verus!
