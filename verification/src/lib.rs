//! Decoder for a capture file carrying an exchange market-data feed.
//!
//! The library reads legacy capture blocks, normalizes each block's
//! capture clock to a local time of day, decodes fixed-offset quote
//! records out of Ethernet payloads, and emits them as text lines
//! through a bounded sort-and-emit buffer.

pub mod line;
pub mod pipeline;
pub mod reader;
pub mod record;
pub mod stream;
pub mod times;
