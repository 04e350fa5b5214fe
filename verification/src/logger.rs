//! Verbosity levels for the diagnostic logger. The logger here is a plain
//! value the surrounding program owns and passes where it is needed; the
//! printing itself stays outside the engine.

use vstd::prelude::*;

verus! {

use vstd::string::StringSliceAdditionalSpecFns;

use crate::bytes::{bytes_eq, lower_seq, to_lower_vec};

/// Diagnostic verbosity, from silent to chatty.
#[derive(Clone, Copy, Debug, PartialEq, Eq, Structural)]
pub enum LogLevel {
    Off,
    Error,
    Info,
    Debug,
}

/// The rank of a level: a message is printed when the configured rank is at
/// least the message's rank.
pub open spec fn level_rank(l: LogLevel) -> int {
    match l {
        LogLevel::Off => 0,
        LogLevel::Error => 1,
        LogLevel::Info => 2,
        LogLevel::Debug => 3,
    }
}

/// The level a verbosity option string selects, case-insensitively:
/// `error`/`e`, `info`/`i`, `debug`/`d`; anything else is silent.
pub open spec fn level_of_bytes(s: Seq<u8>) -> LogLevel {
    let low = lower_seq(s);
    if low == "error".spec_bytes() || low == "e".spec_bytes() {
        LogLevel::Error
    } else if low == "info".spec_bytes() || low == "i".spec_bytes() {
        LogLevel::Info
    } else if low == "debug".spec_bytes() || low == "d".spec_bytes() {
        LogLevel::Debug
    } else {
        LogLevel::Off
    }
}

/// The diagnostic logger: nothing but its configured verbosity.
pub struct Logger {
    pub level: LogLevel,
}

impl Logger {
    pub fn new(level: LogLevel) -> (r: Self)
        ensures
            r.level == level,
    {
        Logger { level }
    }

    pub fn set_level(&mut self, level: LogLevel)
        ensures
            final(self).level == level,
    {
        self.level = level;
    }

    /// Set the verbosity from its option string.
    pub fn set_log_level(&mut self, level: &[u8])
        ensures
            final(self).level == level_of_bytes(level@),
    {
        let low = to_lower_vec(level);
        let parsed = if bytes_eq(low.as_slice(), "error".as_bytes_vec().as_slice()) || bytes_eq(
            low.as_slice(),
            "e".as_bytes_vec().as_slice(),
        ) {
            LogLevel::Error
        } else if bytes_eq(low.as_slice(), "info".as_bytes_vec().as_slice()) || bytes_eq(
            low.as_slice(),
            "i".as_bytes_vec().as_slice(),
        ) {
            LogLevel::Info
        } else if bytes_eq(low.as_slice(), "debug".as_bytes_vec().as_slice()) || bytes_eq(
            low.as_slice(),
            "d".as_bytes_vec().as_slice(),
        ) {
            LogLevel::Debug
        } else {
            LogLevel::Off
        };
        self.level = parsed;
    }

    fn rank(level: LogLevel) -> (r: u8)
        ensures
            r as int == level_rank(level),
    {
        match level {
            LogLevel::Off => 0,
            LogLevel::Error => 1,
            LogLevel::Info => 2,
            LogLevel::Debug => 3,
        }
    }

    /// Would a message of the given level be printed under the configured
    /// verbosity? The printing helpers outside the engine test this before
    /// writing.
    pub fn logs(&self, level: LogLevel) -> (r: bool)
        ensures
            r == (level_rank(self.level) >= level_rank(level)),
    {
        Self::rank(self.level) >= Self::rank(level)
    }
}

} // verus!
