//! Interpreter for the line-oriented JSON event stream that a test runner
//! emits in its machine-readable mode.
//!
//! The library reads one event per line, enforces the suite/test lifecycle
//! protocol, normalizes durations, test names and captured output, and
//! accumulates the results into an in-memory report ready for handoff to a
//! serializer.  A stream that violates the protocol, or a candidate line that
//! cannot be decoded, aborts the whole parse: no partial report is produced.

pub mod duration;
pub mod event;
pub mod json;
pub mod laws;
pub mod names;
pub mod parser;
pub mod report;
pub mod sanitize;
pub mod text;

pub use event::Event;
pub use parser::parse;
pub use parser::Parser;
pub use report::Case;
pub use report::Outcome;
pub use report::ParseError;
pub use report::Report;
pub use report::Suite;
