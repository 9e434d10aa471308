//! The server's log files and the uptime stamp that prefixes each entry.
use vstd::prelude::*;

use crate::clock::{elapsed_since, instant_now, whole_micros};
use crate::text::{decimal, decimal_string};
use crate::timer::log_file_path;

verus! {

/// The log files that the server writes.
#[derive(Debug, Clone, Copy, PartialEq, Eq, Structural)]
pub enum Logs {
    Trace,
    ServerError,
    HttpTest,
    Debug,
}

impl Logs {
    /// The name of this log's file.
    pub open spec fn file_name(self) -> Seq<char> {
        match self {
            Logs::Trace => "trace.log"@,
            Logs::ServerError => "error.log"@,
            Logs::HttpTest => "test.log"@,
            Logs::Debug => "debug.log"@,
        }
    }

    pub fn as_str(&self) -> (r: &'static str)
        ensures
            r@ == self.file_name(),
    {
        match *self {
            Logs::Trace => "trace.log",
            Logs::ServerError => "error.log",
            Logs::HttpTest => "test.log",
            Logs::Debug => "debug.log",
        }
    }
}

/// How an uptime of `micros` microseconds is stamped: in microseconds below a
/// millisecond, in milliseconds below a second, in seconds below a minute,
/// and in milliseconds from then on.
pub open spec fn uptime_text(micros: nat) -> Seq<char> {
    if micros < 1000 {
        decimal(micros) + "\u{b5}s"@
    } else if micros / 1000 < 1000 {
        decimal(micros / 1000) + "ms"@
    } else if micros / 1_000_000 < 60 {
        decimal(micros / 1_000_000) + "s"@
    } else {
        decimal(micros / 1000) + "ms"@
    }
}

/// Stamps an uptime of `micros` microseconds.
pub fn uptime_label(micros: u128) -> (r: String)
    ensures
        r@ == uptime_text(micros as nat),
{
    if micros < 1000 {
        let mut s = decimal_string(micros);
        s.append("\u{b5}s");
        return s;
    }
    let millis = micros / 1000;
    if millis < 1000 {
        let mut s = decimal_string(millis);
        s.append("ms");
        return s;
    }
    let seconds = micros / 1_000_000;
    if seconds < 60 {
        let mut s = decimal_string(seconds);
        s.append("s");
        return s;
    }
    let mut s = decimal_string(millis);
    s.append("ms");
    s
}

/// Writes log entries under a directory, stamped with the time since the
/// logger was made.
#[derive(Debug)]
pub struct Logger {
    log_root_dir: String,
    spawn_time: std::time::Instant,
    last_logged: std::time::Instant,
}

impl Logger {
    pub closed spec fn log_dir(&self) -> Seq<char> {
        self.log_root_dir@
    }

    pub fn new() -> (r: Self)
        ensures
            r.log_dir() == "logs"@,
    {
        Self {
            log_root_dir: String::from_str("logs"),
            spawn_time: instant_now(),
            last_logged: instant_now(),
        }
    }

    /// The time since the logger was made, stamped as `uptime_text` says.
    pub fn elapsed(&self) -> (r: String)
        ensures
            exists|micros: nat| r@ == uptime_text(micros),
    {
        let d = elapsed_since(&self.spawn_time);
        uptime_label(whole_micros(&d))
    }

    /// The time since the last entry was logged.
    pub fn logged(&self) -> std::time::Duration {
        elapsed_since(&self.last_logged)
    }

    /// Where the entries of `file` are written.
    pub fn log_path(&self, file: Logs) -> (r: String)
        ensures
            r@ == log_file_path(self.log_dir(), file.file_name()),
    {
        let mut s = self.log_root_dir.clone();
        s.append("/");
        s.append(file.as_str());
        s
    }
}

} // verus!
