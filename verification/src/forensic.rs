//! How often an emit site may record what no schema describes. Such records
//! are kept whatever the sampler says, so each site is held to a quota.
use vstd::prelude::*;

verus! {

/// A token bucket: how many tokens come in a second, and how many it holds.
#[derive(Debug, Clone, Copy, PartialEq, Eq, Structural)]
pub struct ForensicQuota {
    /// The tokens that come in a second.
    pub per_second: u32,
    /// The tokens that it holds at most.
    pub burst: u32,
}

/// The quota of an emit site: one record a second, five at once.
#[must_use]
pub fn default_forensic_quota() -> (r: ForensicQuota)
    ensures
        r == (ForensicQuota { per_second: 1, burst: 5 }),
{
    ForensicQuota { per_second: 1, burst: 5 }
}

/// A site may record once a second, and five times at once.
pub proof fn law_five_at_once_and_one_a_second(r: ForensicQuota)
    requires
        call_ensures(default_forensic_quota, (), r),
    ensures
        r.per_second == 1,
        r.burst == 5,
{
}

} // verus!
