//! Throughput measurement of size-framed transfers over a secure channel.
//!
//! One exchange moves a synthetic payload from a sender to a receiver: an
//! 8-byte size frame, the payload in chunks, and a 2-byte acknowledgment
//! back. A sweep runs such exchanges one after the other over a plan of
//! file sizes and chunk sizes, and its results give mean durations and the
//! best chunk size for each file size.
//!
//! The library does no input or output and reads no clock. [`sender`] and
//! [`receiver`] are state machines that say what to do next on the channel
//! and take in how it ended; [`sweep`] hands out the requests of a plan and
//! takes in the measured durations. Whoever owns the channel and the clock
//! drives them.
//!
//! - [`wire`]: the size frame and the acknowledgment.
//! - [`sender`], [`receiver`]: the two halves of one exchange.
//! - [`exchange`]: what the two halves guarantee together.
//! - [`measure`]: requests, results, durations and throughput.
//! - [`sweep`]: repeated transfers, the size sweep and the chunk analysis.
//! - [`stats`]: mean duration and optimal chunk size.
//! - [`report`]: the values that a report shows of a result.
//! - [`error`]: why a transfer failed.

pub mod error;
pub mod exchange;
pub mod measure;
pub mod receiver;
pub mod report;
pub mod sender;
pub mod stats;
pub mod sweep;
pub mod wire;
