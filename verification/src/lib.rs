//! The body of the OPT pseudo resource record of DNS, which carries the
//! options of the extension mechanisms for DNS (RFC 6891), and its wire
//! format: how a list of options is written into a message and read back
//! from one without ever reading past the end of the message.
//!
//! - `opt` holds the record, its options and the operations on them;
//! - `wire` says in mathematics what the bytes of the options are;
//! - `laws` proves what holds of writing and reading together;
//! - `packer` holds the primitives for 16-bit integers and raw bytes;
//! - `text` gives the text of a record for diagnostics;
//! - `errors` holds the error of reading.

pub mod errors;
pub mod laws;
pub mod opt;
pub mod packer;
pub mod text;
pub mod wire;
