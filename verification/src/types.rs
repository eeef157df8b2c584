//! The vocabulary of an event: how severe it is, which tier it belongs to, and
//! what its fields are.

use vstd::prelude::*;

verus! {

/// How severe an event is, least severe first.
#[derive(Debug, Clone, Copy, PartialEq, Eq, Structural)]
pub enum Severity {
    Unspecified,
    Trace,
    Debug,
    Info,
    Warn,
    Error,
    Fatal,
}

impl Severity {
    /// The place of this severity in the order.
    pub open spec fn rank(self) -> nat {
        match self {
            Severity::Unspecified => 0,
            Severity::Trace => 1,
            Severity::Debug => 2,
            Severity::Info => 3,
            Severity::Warn => 4,
            Severity::Error => 5,
            Severity::Fatal => 6,
        }
    }

    /// The place of this severity in the order, as a number.
    pub fn level(self) -> (r: u8)
        ensures
            r == self.rank(),
    {
        match self {
            Severity::Unspecified => 0,
            Severity::Trace => 1,
            Severity::Debug => 2,
            Severity::Info => 3,
            Severity::Warn => 4,
            Severity::Error => 5,
            Severity::Fatal => 6,
        }
    }

    /// Whether this severity is `floor` or above it.
    pub fn at_least(self, floor: Severity) -> (r: bool)
        ensures
            r == (self.rank() >= floor.rank()),
    {
        self.level() >= floor.level()
    }

    /// The lower-case name.
    pub open spec fn name(self) -> Seq<char> {
        match self {
            Severity::Unspecified => "unspecified"@,
            Severity::Trace => "trace"@,
            Severity::Debug => "debug"@,
            Severity::Info => "info"@,
            Severity::Warn => "warn"@,
            Severity::Error => "error"@,
            Severity::Fatal => "fatal"@,
        }
    }

    /// The lower-case name.
    pub fn as_str(self) -> (r: &'static str)
        ensures
            r@ == self.name(),
    {
        match self {
            Severity::Unspecified => "unspecified",
            Severity::Trace => "trace",
            Severity::Debug => "debug",
            Severity::Info => "info",
            Severity::Warn => "warn",
            Severity::Error => "error",
            Severity::Fatal => "fatal",
        }
    }
}

/// The channel that an event travels on.
#[derive(Debug, Clone, Copy, PartialEq, Eq, Structural)]
pub enum Tier {
    Unspecified,
    Log,
    Metric,
    Trace,
    Audit,
}

impl Tier {
    /// The lower-case name.
    pub open spec fn name(self) -> Seq<char> {
        match self {
            Tier::Unspecified => "unspecified"@,
            Tier::Log => "log"@,
            Tier::Metric => "metric"@,
            Tier::Trace => "trace"@,
            Tier::Audit => "audit"@,
        }
    }

    /// The lower-case name.
    pub fn as_str(self) -> (r: &'static str)
        ensures
            r@ == self.name(),
    {
        match self {
            Tier::Unspecified => "unspecified",
            Tier::Log => "log",
            Tier::Metric => "metric",
            Tier::Trace => "trace",
            Tier::Audit => "audit",
        }
    }
}

/// Why an envelope was kept.
#[derive(Debug, Clone, Copy, PartialEq, Eq, Structural)]
pub enum SamplingReason {
    Unspecified,
    HeadRate,
    TailError,
    Slow,
    Forensic,
    Audit,
    Runtime,
    Override,
}

impl SamplingReason {
    /// The snake-case name.
    pub open spec fn name(self) -> Seq<char> {
        match self {
            SamplingReason::Unspecified => "unspecified"@,
            SamplingReason::HeadRate => "head_rate"@,
            SamplingReason::TailError => "tail_error"@,
            SamplingReason::Slow => "slow"@,
            SamplingReason::Forensic => "forensic"@,
            SamplingReason::Audit => "audit"@,
            SamplingReason::Runtime => "runtime"@,
            SamplingReason::Override => "override"@,
        }
    }

    /// The snake-case name.
    pub fn as_str(self) -> (r: &'static str)
        ensures
            r@ == self.name(),
    {
        match self {
            SamplingReason::Unspecified => "unspecified",
            SamplingReason::HeadRate => "head_rate",
            SamplingReason::TailError => "tail_error",
            SamplingReason::Slow => "slow",
            SamplingReason::Forensic => "forensic",
            SamplingReason::Audit => "audit",
            SamplingReason::Runtime => "runtime",
            SamplingReason::Override => "override",
        }
    }
}

/// An enumeration value as it comes off the wire: one that this version
/// knows, or the number of one that it does not.
#[derive(Debug, Copy, PartialEq, Eq, Structural)]
pub enum EnumValue<T> {
    Known(T),
    Unknown(i32),
}

impl<T: Copy> Clone for EnumValue<T> {
    fn clone(&self) -> (r: Self)
        ensures
            r == *self,
    {
        *self
    }
}

/// How many values a label may take.
#[derive(Debug, Clone, Copy, PartialEq, Eq, Structural)]
pub enum Cardinality {
    Unspecified,
    Low,
    Medium,
    High,
    Unbounded,
}

impl Cardinality {
    /// The name of the cap.
    pub open spec fn name(self) -> Seq<char> {
        match self {
            Cardinality::Unspecified => "Unspecified"@,
            Cardinality::Low => "Low"@,
            Cardinality::Medium => "Medium"@,
            Cardinality::High => "High"@,
            Cardinality::Unbounded => "Unbounded"@,
        }
    }

    /// The name of the cap.
    pub fn as_str(self) -> (r: &'static str)
        ensures
            r@ == self.name(),
    {
        match self {
            Cardinality::Unspecified => "Unspecified",
            Cardinality::Low => "Low",
            Cardinality::Medium => "Medium",
            Cardinality::High => "High",
            Cardinality::Unbounded => "Unbounded",
        }
    }
}

/// How sensitive a field is.
#[derive(Debug, Clone, Copy, PartialEq, Eq, Structural)]
pub enum Classification {
    Unspecified,
    Internal,
    Pii,
    Secret,
}

impl Classification {
    /// The name of the class.
    pub open spec fn name(self) -> Seq<char> {
        match self {
            Classification::Unspecified => "Unspecified"@,
            Classification::Internal => "Internal"@,
            Classification::Pii => "Pii"@,
            Classification::Secret => "Secret"@,
        }
    }

    /// The name of the class.
    pub fn as_str(self) -> (r: &'static str)
        ensures
            r@ == self.name(),
    {
        match self {
            Classification::Unspecified => "Unspecified",
            Classification::Internal => "Internal",
            Classification::Pii => "Pii",
            Classification::Secret => "Secret",
        }
    }

    /// Whether a field of this class is kept out of what leaves the process.
    pub open spec fn redacted(self) -> bool {
        self is Pii || self is Secret
    }

    /// Whether a field of this class is kept out of what leaves the process.
    pub fn is_redacted(self) -> (r: bool)
        ensures
            r == self.redacted(),
    {
        match self {
            Classification::Pii => true,
            Classification::Secret => true,
            _ => false,
        }
    }
}

/// What a field is declared to be.
#[derive(Debug, Clone, Copy, PartialEq, Eq, Structural)]
pub enum FieldKind {
    Unspecified,
    Label,
    Attribute,
    Measurement,
    TraceId,
    SpanId,
    ParentSpanId,
    TimestampNs,
    DurationNs,
    Forensic,
}

/// Severities rise from `Unspecified` over `Trace`, `Debug`, `Info`, `Warn` and
/// `Error` to `Fatal`, and no two are alike.
pub proof fn law_severities_rise()
    ensures
        Severity::Unspecified.rank() < Severity::Trace.rank() < Severity::Debug.rank()
            < Severity::Info.rank() < Severity::Warn.rank() < Severity::Error.rank()
            < Severity::Fatal.rank(),
        forall|a: Severity, b: Severity| #[trigger] a.rank() == #[trigger] b.rank() ==> a == b,
{
}

/// What is personal or secret is kept out of what leaves the process, and
/// nothing else is.
pub proof fn law_personal_and_secret_are_redacted()
    ensures
        Classification::Pii.redacted(),
        Classification::Secret.redacted(),
        !Classification::Internal.redacted(),
        !Classification::Unspecified.redacted(),
{
}

/// Every name is that of one value alone.
pub proof fn law_names_tell_values_apart()
    ensures
        forall|a: Severity, b: Severity| #[trigger] a.name() == #[trigger] b.name() ==> a == b,
        forall|a: Tier, b: Tier| #[trigger] a.name() == #[trigger] b.name() ==> a == b,
        forall|a: SamplingReason, b: SamplingReason| #[trigger]
            a.name() == #[trigger] b.name() ==> a == b,
        forall|a: Cardinality, b: Cardinality| #[trigger]
            a.name() == #[trigger] b.name() ==> a == b,
        forall|a: Classification, b: Classification| #[trigger]
            a.name() == #[trigger] b.name() ==> a == b,
{
    reveal_strlit("unspecified");
    reveal_strlit("trace");
    reveal_strlit("debug");
    reveal_strlit("info");
    reveal_strlit("warn");
    reveal_strlit("error");
    reveal_strlit("fatal");
    reveal_strlit("log");
    reveal_strlit("metric");
    reveal_strlit("audit");
    reveal_strlit("head_rate");
    reveal_strlit("tail_error");
    reveal_strlit("slow");
    reveal_strlit("forensic");
    reveal_strlit("runtime");
    reveal_strlit("override");
    reveal_strlit("Unspecified");
    reveal_strlit("Low");
    reveal_strlit("Medium");
    reveal_strlit("High");
    reveal_strlit("Unbounded");
    reveal_strlit("Internal");
    reveal_strlit("Pii");
    reveal_strlit("Secret");
    assert("trace"@[0] == 't' && "debug"@[0] == 'd' && "info"@[0] == 'i' && "warn"@[0] == 'w'
        && "error"@[0] == 'e' && "fatal"@[0] == 'f' && "unspecified"@[0] == 'u');
    assert("log"@[0] == 'l' && "metric"@[0] == 'm' && "audit"@[0] == 'a');
    assert("head_rate"@[0] == 'h' && "tail_error"@[0] == 't' && "slow"@[0] == 's'
        && "forensic"@[0] == 'f' && "runtime"@[0] == 'r' && "override"@[0] == 'o');
    assert("Unspecified"@[2] == 's' && "Low"@[0] == 'L' && "Medium"@[0] == 'M' && "High"@[0] == 'H'
        && "Unbounded"@[2] == 'b');
    assert("Internal"@[0] == 'I' && "Pii"@[0] == 'P' && "Secret"@[0] == 'S' && "Unspecified"@[0]
        == 'U');
}

/// Each value is called as it is in a configuration or on the wire.
pub proof fn law_values_have_their_names()
    ensures
        Severity::Trace.name() == "trace"@,
        Severity::Debug.name() == "debug"@,
        Severity::Info.name() == "info"@,
        Severity::Warn.name() == "warn"@,
        Severity::Error.name() == "error"@,
        Severity::Fatal.name() == "fatal"@,
        Tier::Log.name() == "log"@,
        Tier::Metric.name() == "metric"@,
        Tier::Trace.name() == "trace"@,
        Tier::Audit.name() == "audit"@,
        SamplingReason::HeadRate.name() == "head_rate"@,
        SamplingReason::TailError.name() == "tail_error"@,
        SamplingReason::Slow.name() == "slow"@,
        SamplingReason::Forensic.name() == "forensic"@,
        SamplingReason::Audit.name() == "audit"@,
        SamplingReason::Runtime.name() == "runtime"@,
        SamplingReason::Override.name() == "override"@,
        Cardinality::Low.name() == "Low"@,
        Cardinality::Medium.name() == "Medium"@,
        Cardinality::High.name() == "High"@,
        Cardinality::Unbounded.name() == "Unbounded"@,
        Classification::Internal.name() == "Internal"@,
        Classification::Pii.name() == "Pii"@,
        Classification::Secret.name() == "Secret"@,
{
}

} // verus!
