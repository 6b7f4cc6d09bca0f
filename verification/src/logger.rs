use vstd::prelude::*;

verus! {

/// Severity of a log line; the writing of log lines itself is left to the
/// host program around the library.
#[derive(Clone, Copy, Debug, PartialEq, Eq, Structural)]
pub enum LogLevel {
    Debug,
    Info,
    Warn,
    Error,
    Fatal,
}

} // verus!
