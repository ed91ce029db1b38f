//! The shape of human-readable log lines: a severity label, a timestamp the
//! caller supplies, and a message.

use vstd::prelude::*;

verus! {

/// The severity of one log line.
#[derive(Clone, Copy, PartialEq, Eq, Structural, Debug)]
pub enum LogType {
    Error,
    Warning,
    Info,
}

impl LogType {
    /// The label written for this severity.
    pub open spec fn spec_label(self) -> Seq<char> {
        match self {
            LogType::Info => "INFO"@,
            LogType::Warning => "WARNING"@,
            LogType::Error => "ERROR"@,
        }
    }

    /// The label written for this severity.
    pub fn label(&self) -> (r: &'static str)
        ensures
            r@ == self.spec_label(),
    {
        match self {
            LogType::Info => "INFO",
            LogType::Warning => "WARNING",
            LogType::Error => "ERROR",
        }
    }
}

/// One log line: the bracketed label, the timestamp, and the message.
pub open spec fn spec_log_line(level: LogType, timestamp: Seq<char>, message: Seq<char>) -> Seq<
    char,
> {
    "["@ + level.spec_label() + "] "@ + timestamp + " > "@ + message
}

/// Formats one log line from a severity, a timestamp and a message.
pub fn format_log_line(level: &LogType, timestamp: &str, message: &str) -> (r: String)
    ensures
        r@ == spec_log_line(*level, timestamp@, message@),
{
    let mut out = "[".to_owned();
    out.append(level.label());
    out.append("] ");
    out.append(timestamp);
    out.append(" > ");
    out.append(message);
    proof {
        assert(out@ =~= spec_log_line(*level, timestamp@, message@));
    }
    out
}

} // verus!
