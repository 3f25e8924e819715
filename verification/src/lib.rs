//! Reading PocketBook theme containers and writing raw bitmap resources.
//!
//! A theme container is one file: a short preamble, a table of resource
//! headers, and the zlib-compressed payloads the headers point at. This
//! library decodes the table, extracts and inflates single resources, guesses
//! what a payload holds, and encodes a decoded image as the device's raw
//! 24-bit bitmap resource. Every function works on bytes in memory.

pub mod error;
pub mod reader;
pub mod text;
pub mod container;
pub mod extract;
pub mod sniff;
pub mod bitmap;
pub mod listing;
pub mod unpack;
pub mod truncation;
