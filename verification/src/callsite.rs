//! Emit sites, and what is remembered of whether they are wanted.

use vstd::prelude::*;

use crate::types::Severity;

verus! {

/// What is known of whether an emit site is wanted.
#[derive(Debug, Clone, Copy, PartialEq, Eq, Structural)]
pub enum Interest {
    /// Nothing yet: the observer is to be asked.
    Unknown,
    /// It is not: the emit is skipped.
    Never,
    /// It may be: the observer is to be asked on each emit.
    Sometimes,
    /// It is, always.
    Always,
}

impl Interest {
    /// The byte that stands for this interest in a cache.
    pub open spec fn byte(self) -> u8 {
        match self {
            Interest::Unknown => 0,
            Interest::Never => 1,
            Interest::Sometimes => 2,
            Interest::Always => 3,
        }
    }

    /// The byte that stands for this interest in a cache.
    pub fn as_u8(self) -> (r: u8)
        ensures
            r == self.byte(),
    {
        match self {
            Interest::Unknown => 0,
            Interest::Never => 1,
            Interest::Sometimes => 2,
            Interest::Always => 3,
        }
    }

    /// The interest that a byte stands for; `Unknown` for a byte that none has.
    pub fn from_u8(value: u8) -> (r: Self)
        ensures
            value <= 3 ==> r.byte() == value,
            value > 3 ==> r == Interest::Unknown,
    {
        match value {
            1 => Interest::Never,
            2 => Interest::Sometimes,
            3 => Interest::Always,
            _ => Interest::Unknown,
        }
    }
}

/// What an emit is to do.
#[derive(Debug, Clone, Copy, PartialEq, Eq, Structural)]
pub enum EnabledOutcome {
    /// Nothing: the site is not wanted.
    Off,
    /// Ask the observer first.
    SometimesOn,
    /// Go ahead.
    AlwaysOn,
    /// Ask the observer for its interest, and remember it.
    ReProbe,
}

/// What an emit is to do, from what was remembered and when. What was
/// remembered for another generation of the configuration does not count.
pub open spec fn outcome(interest: Interest, cached_gen: u32, current_gen: u32) -> EnabledOutcome {
    if cached_gen != current_gen {
        EnabledOutcome::ReProbe
    } else {
        match interest {
            Interest::Unknown => EnabledOutcome::ReProbe,
            Interest::Never => EnabledOutcome::Off,
            Interest::Sometimes => EnabledOutcome::SometimesOn,
            Interest::Always => EnabledOutcome::AlwaysOn,
        }
    }
}

/// What an emit is to do, from a cache that others may write at the same time.
pub fn enabled_outcome(interest: Interest, cached_gen: u32, current_gen: u32) -> (r: EnabledOutcome)
    ensures
        r == outcome(interest, cached_gen, current_gen),
{
    if cached_gen != current_gen {
        return EnabledOutcome::ReProbe;
    }
    match interest {
        Interest::Unknown => EnabledOutcome::ReProbe,
        Interest::Never => EnabledOutcome::Off,
        Interest::Sometimes => EnabledOutcome::SometimesOn,
        Interest::Always => EnabledOutcome::AlwaysOn,
    }
}

/// One emit site.
#[derive(Debug)]
pub struct ObsCallsite {
    full_name: &'static str,
    default_sev: Severity,
    module: &'static str,
    file: &'static str,
    line: u32,
    interest: Interest,
    cached_gen: u32,
}

/// What an emit site is.
pub struct CallsiteView {
    pub full_name: Seq<char>,
    pub default_sev: Severity,
    pub module: Seq<char>,
    pub file: Seq<char>,
    pub line: u32,
    pub interest: Interest,
    pub cached_gen: u32,
}

impl View for ObsCallsite {
    type V = CallsiteView;

    closed spec fn view(&self) -> CallsiteView {
        CallsiteView {
            full_name: self.full_name@,
            default_sev: self.default_sev,
            module: self.module@,
            file: self.file@,
            line: self.line,
            interest: self.interest,
            cached_gen: self.cached_gen,
        }
    }
}

/// A site of which nothing is remembered.
pub open spec fn forgotten(site: CallsiteView) -> CallsiteView {
    CallsiteView { interest: Interest::Unknown, cached_gen: 0, ..site }
}

/// A site after it was looked at under a generation of the configuration.
pub open spec fn checked(site: CallsiteView, current_gen: u32) -> CallsiteView {
    if site.cached_gen != current_gen {
        forgotten(site)
    } else {
        site
    }
}

impl ObsCallsite {
    /// A site of which nothing is remembered yet.
    #[must_use]
    pub fn new(
        full_name: &'static str,
        default_sev: Severity,
        module: &'static str,
        file: &'static str,
        line: u32,
    ) -> (r: Self)
        ensures
            r@ == (CallsiteView {
                full_name: full_name@,
                default_sev,
                module: module@,
                file: file@,
                line,
                interest: Interest::Unknown,
                cached_gen: 0,
            }),
    {
        ObsCallsite {
            full_name,
            default_sev,
            module,
            file,
            line,
            interest: Interest::Unknown,
            cached_gen: 0,
        }
    }

    /// What an emit is to do under the current generation of the configuration.
    /// What was remembered for another generation is forgotten.
    #[must_use]
    pub fn enabled(&mut self, current_gen: u32) -> (r: EnabledOutcome)
        ensures
            r == outcome(old(self)@.interest, old(self)@.cached_gen, current_gen),
            final(self)@ == checked(old(self)@, current_gen),
    {
        let r = enabled_outcome(self.interest, self.cached_gen, current_gen);
        if self.cached_gen != current_gen {
            self.reset_cache();
        }
        r
    }

    /// Remembers an interest for a generation of the configuration.
    pub fn cache(&mut self, interest: Interest, current_gen: u32)
        ensures
            final(self)@ == (CallsiteView { interest, cached_gen: current_gen, ..old(self)@ }),
    {
        self.interest = interest;
        self.cached_gen = current_gen;
    }

    /// Forgets what was remembered.
    pub fn reset_cache(&mut self)
        ensures
            final(self)@ == forgotten(old(self)@),
    {
        self.interest = Interest::Unknown;
        self.cached_gen = 0;
    }

    /// The full name of the event.
    #[must_use]
    pub fn full_name(&self) -> (r: &'static str)
        ensures
            r@ == self@.full_name,
    {
        self.full_name
    }

    /// The severity that the schema declares.
    #[must_use]
    pub fn default_sev(&self) -> (r: Severity)
        ensures
            r == self@.default_sev,
    {
        self.default_sev
    }

    /// The module of the emit site.
    #[must_use]
    pub fn module(&self) -> (r: &'static str)
        ensures
            r@ == self@.module,
    {
        self.module
    }

    /// The file of the emit site.
    #[must_use]
    pub fn file(&self) -> (r: &'static str)
        ensures
            r@ == self@.file,
    {
        self.file
    }

    /// The line of the emit site.
    #[must_use]
    pub fn line(&self) -> (r: u32)
        ensures
            r == self@.line,
    {
        self.line
    }
}

/// What was remembered is used until the site is looked at under another
/// generation, and from then on asked for again under any.
pub proof fn law_remembered_for_one_generation(
    site: CallsiteView,
    interest: Interest,
    gen: u32,
    other: u32,
    later: u32,
)
    requires
        interest != Interest::Unknown,
        other != gen,
    ensures
        ({
            let kept = CallsiteView { interest, cached_gen: gen, ..site };
            let lost = checked(kept, other);
            &&& outcome(interest, gen, gen) != EnabledOutcome::ReProbe
            &&& checked(kept, gen) == kept
            &&& outcome(interest, gen, other) == EnabledOutcome::ReProbe
            &&& outcome(lost.interest, lost.cached_gen, later) == EnabledOutcome::ReProbe
        }),
{
}

/// An emit is skipped only where the observer said that it never wants it, and
/// goes ahead without a question only where it said that it always does, both
/// for the configuration in force.
pub proof fn law_only_an_answer_in_force_counts(interest: Interest, cached_gen: u32, current_gen: u32)
    ensures
        outcome(interest, cached_gen, current_gen) == EnabledOutcome::Off <==> interest
            == Interest::Never && cached_gen == current_gen,
        outcome(interest, cached_gen, current_gen) == EnabledOutcome::AlwaysOn <==> interest
            == Interest::Always && cached_gen == current_gen,
        outcome(interest, cached_gen, current_gen) == EnabledOutcome::SometimesOn <==> interest
            == Interest::Sometimes && cached_gen == current_gen,
        outcome(interest, cached_gen, current_gen) == EnabledOutcome::ReProbe <==> interest
            == Interest::Unknown || cached_gen != current_gen,
{
}

/// The four bytes stand for four interests, from nothing known to always.
pub proof fn law_interests_have_their_bytes(a: Interest, b: Interest)
    ensures
        a.byte() == b.byte() ==> a == b,
        Interest::Unknown.byte() == 0,
        Interest::Never.byte() == 1,
        Interest::Sometimes.byte() == 2,
        Interest::Always.byte() == 3,
{
}

/// Whatever is forgotten of a site, it stays the same site.
pub proof fn law_a_site_stays_what_it_is(site: CallsiteView, gen: u32)
    ensures
        forgotten(site).interest == Interest::Unknown,
        forgotten(site).cached_gen == 0,
        forgotten(site).full_name == site.full_name,
        forgotten(site).default_sev == site.default_sev,
        forgotten(site).module == site.module,
        forgotten(site).file == site.file,
        forgotten(site).line == site.line,
        site.cached_gen == gen ==> checked(site, gen) == site,
        site.cached_gen != gen ==> checked(site, gen) == forgotten(site),
{
}

} // verus!
