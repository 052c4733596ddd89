//! Auditing and ranking of per-channel chat transcripts.
//!
//! A transcript is a region of bytes that holds newline-terminated records.
//! The crate finds record boundaries on the raw bytes, looks for records
//! that a writer left unfinished, counts the recent messages of chosen
//! authors while walking a transcript from its end, and orders channels by
//! that count.
//!
//! - `scan`: where records begin and end, walking forward or backward.
//! - `integrity`: the check for unfinished records.
//! - `activity`: the count of recent messages, and the ranking of channels.
//! - `order`: ranked order, and the directives that bring a screen into it.
//! - `locator`: the channels that a client configuration names.
//! - `channel`: channels and the names of their transcript files.
//! - `text`: decoding, byte-wise order, dates and decimal numbers.
//! - `pattern`: regular expressions, matched by the `regex` crate.
//! - `error`: what the scans report.

pub mod activity;
pub mod channel;
pub mod error;
pub mod integrity;
pub mod locator;
pub mod order;
pub mod pattern;
pub mod scan;
pub mod text;
