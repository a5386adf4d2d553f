//! Reverse Beacon Network spot feed, aggregated and scheduled onto a
//! two-line character display.
//!
//! The crate holds the logic only: every function takes the clock, the bytes
//! read from the network and the outcome of each write as plain values and
//! hands back the next state together with what has to be sent. Frequencies
//! are whole hertz, keying speeds are thousandths of a word per minute and
//! instants are milliseconds on a clock of the caller's choosing.

pub mod bytes;
pub mod client;
pub mod config;
pub mod numeral;
pub mod parser;
pub mod radio;
pub mod session;
pub mod spot;
pub mod spot_store;
pub mod text;
pub mod vfd_display;
