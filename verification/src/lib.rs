//! Ingestion of a chunked stream of price ticks and heartbeats.
//!
//! The stream arrives as chunks of bytes whose boundaries fall anywhere. It
//! holds JSON values, one per record, with whitespace between them.
//!
//! - `framing` finds where one value ends and the next begins.
//! - `record` turns the bytes of one value into a record, or says why not.
//! - `assembler` keeps what has arrived of a value that has not ended, and
//!   hands back the records of the values that have.
//! - `codec` is the sixteen-byte binary form of a tick.
//! - `log` keeps the books of one append-only log file.
//! - `stream` is one streaming session: what becomes of each outcome of a
//!   read, which bytes go to which log, and which record the caller gets
//!   next.
//! - `weeks` cuts a binary log into trading weeks.
//! - `endpoints` and `instruments` hold the addresses of the broker's
//!   service and the instruments to subscribe to.
//!
//! Nothing here reads or writes: the caller hands in bytes and appends to
//! files what it is handed back. Prices are kept as the bit patterns of
//! single-precision numbers; turning decimal text into such a pattern is the
//! caller's part.

pub mod assembler;
pub mod codec;
pub mod endpoints;
pub mod framing;
pub mod instruments;
pub mod log;
pub mod record;
pub mod stream;
pub mod weeks;
