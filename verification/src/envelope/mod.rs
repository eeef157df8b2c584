//! Envelopes and the field tables they are projected by.

pub mod builder;
pub mod projection;
pub mod record;

pub use builder::{build_envelope, build_envelope_at, Envelope, EventSchema};
pub use projection::{FieldMeta, FieldRole};
pub use record::{EnvelopeView, ObsEnvelope};
