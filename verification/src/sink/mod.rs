//! Sinks: where envelopes end.

pub mod calendar;
pub mod fanout;
pub mod in_memory;
pub mod ndjson;
pub mod noop;
pub mod stdout;
pub mod writer;

pub use fanout::FanOutSink;
pub use in_memory::{InMemoryHandle, InMemorySink};
pub use noop::NoopSink;
pub use stdout::{FormatterStyle, StdoutSink};
pub use writer::{
    LevelSplitWriter, NonBlockingHandle, NonBlockingWriter, RollingFileWriter,
    RollingFileWriterBuilder, RollingPolicy, StderrWriter, StdoutWriter, TeeWriter,
};
