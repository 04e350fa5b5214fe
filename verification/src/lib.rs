//! Classification, filtering and colorizing of logcat-style log lines.
//!
//! The engine works on raw bytes: one line in, either nothing (the line is
//! dropped by the filter) or the same line with ANSI color escapes around
//! the level token, the tag token and the vocabulary matches in the message.

pub mod builder;
pub mod bytes;
pub mod color;
pub mod filter;
pub mod filter_config;
pub mod highlight;
pub mod logger;
