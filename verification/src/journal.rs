//! What the service's log lines and its support bundle say about the host.

use vstd::prelude::*;

use crate::text::{decimal, decimal_text};

verus! {

/// How important a log line is.
#[derive(Debug, Clone, Copy, PartialEq, Eq, Structural)]
pub enum Level {
    /// Something failed.
    Error,
    /// Something is wrong.
    Warn,
    /// Something happened.
    Info,
    /// Something that helps to debug.
    Debug,
    /// Everything else.
    Trace,
}

/// The syslog severity of a log line, as the prefix that journald reads.
pub open spec fn severity(level: Level) -> Seq<char> {
    match level {
        Level::Error => "<3>"@,
        Level::Warn => "<4>"@,
        Level::Info => "<6>"@,
        Level::Debug => "<7>"@,
        Level::Trace => "<7>"@,
    }
}

/// The syslog severity of a log line, as the prefix that journald reads. Syslog
/// has nothing less severe than debug, so the last two levels share it.
pub fn syslog_prefix(level: &Level) -> (prefix: &'static str)
    ensures
        prefix@ == severity(*level),
{
    match level {
        Level::Error => "<3>",
        Level::Warn => "<4>",
        Level::Info => "<6>",
        Level::Debug => "<7>",
        Level::Trace => "<7>",
    }
}

/// Whether the log goes to journald, from the variable that systemd sets where
/// it does: it is there, and not empty.
pub fn logs_to_journal(journal_stream: Option<&[u8]>) -> (result: bool)
    ensures
        result <==> (journal_stream matches Some(value) && value@.len() > 0),
{
    match journal_stream {
        Some(value) => value.len() > 0,
        None => false,
    }
}

/// A resource limit as text, where an absent one is no limit.
pub fn or_unlimited(limit: Option<u64>) -> (text: String)
    ensures
        text@ == match limit {
            Some(value) => decimal_text(value as nat),
            None => "unlimited"@,
        },
{
    match limit {
        Some(value) => decimal(value),
        None => "unlimited".to_owned(),
    }
}

} // verus!
