//! The wire format of event payloads and of envelope frames.

pub mod codec;
pub mod envelope_codec;
pub mod fields;

pub use fields::BuffaEncodeField;
