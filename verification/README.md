# obs-core

The core of a runtime for structured events, written in Verus: what happens to
an event between the place that emits it and the sink that takes it away.

- `src/` is the verified library. Every function states in its contract what it
  gives back or changes. The proof functions whose names begin with `law_` state
  what holds of several functions together.
- `tests/` runs the library, with the crates that it calls.
- `app/` is ordinary Rust around the library: threads and tasks, files, the
  environment and the process.

| Module | What it decides |
| --- | --- |
| `filter` | which emit sites and events are wanted |
| `sampling`, `observer` | which events are kept, and where they go |
| `scope`, `instrumented`, `span_trace` | what an event takes from the scopes around it |
| `registry`, `wire` | how payloads are written, read and scrubbed |
| `audit_spool` | how audit records are kept for a later process |
| `sink` | how events are written as text, and to which file |
| `propagator` | how a trace crosses processes |
| `config`, `resource` | what the environment and a file configure |

The library calls a few outside crates. What it takes for granted of each call
stands in the contract of the function that makes it, under a doc comment that
names the call.
