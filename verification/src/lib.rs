//! Decoder for the binary list files of a multi-channel time-tagging
//! multiscaler.
//!
//! A list file is a run of fixed-width records. A short configuration code,
//! the timepatch, selects how the bits of a record are divided between the
//! fields of an event. The library resolves the code, takes the fields out of
//! each record, rebuilds the absolute time of an event from its sweep counter
//! and hands the events out per input channel, in the order of the file.

pub mod channels;
pub mod driver;
pub mod error;
pub mod extract;
pub mod failures;
pub mod masks;
pub mod oracle;
pub mod order;
pub mod pack;
pub mod reader;
pub mod record;
pub mod sweep;
pub mod timepatch;
pub mod word;
