//! The failures that decoding, extracting and encoding can end in.

use vstd::prelude::*;
use vstd::string::StringExecFns;
use crate::text::{decimal, push_decimal};

verus! {

/// Why a container could not be decoded or a resource not be extracted.
#[derive(Clone, Copy, Debug, PartialEq, Eq, Structural)]
pub enum FormatError {
    /// The container does not begin with the magic literal.
    BadMagic,
    /// The version byte is not 1; `found` is the byte that was read.
    UnsupportedVersion { found: u8 },
    /// A read of `wanted` bytes at position `offset` ran past the end of the
    /// container.
    Truncated { offset: u64, wanted: u64 },
    /// The compressed payload is not a well-formed zlib stream.
    Decompression,
}

/// Why an image could not be encoded as a raw bitmap resource.
#[derive(Clone, Copy, Debug, PartialEq, Eq, Structural)]
pub enum EncodeError {
    /// The width or the height is above 32767.
    DimensionsTooLarge { width: u32, height: u32 },
}

/// The line that reports a failure to decode or extract.
pub open spec fn format_message(e: FormatError) -> Seq<char> {
    match e {
        FormatError::BadMagic => "Bad format: File does not start PocketBookTheme"@,
        FormatError::UnsupportedVersion { found } => "Bad format: Not version 1 but "@ + decimal(
            found as nat,
        ),
        FormatError::Truncated { offset, wanted } => "Truncated: no "@ + decimal(wanted as nat)
            + " bytes at offset "@ + decimal(offset as nat),
        FormatError::Decompression => "Decompress: not a zlib stream"@,
    }
}

/// The line that reports a failure to encode.
pub open spec fn encode_message(e: EncodeError) -> Seq<char> {
    match e {
        EncodeError::DimensionsTooLarge { width, height } => "Bad format: too big: "@ + decimal(
            width as nat,
        ) + " x "@ + decimal(height as nat),
    }
}

impl FormatError {
    /// The line that reports this failure, with the value that caused it.
    pub fn message(&self) -> (line: String)
        ensures
            line@ == format_message(*self),
    {
        match *self {
            FormatError::BadMagic => String::from_str(
                "Bad format: File does not start PocketBookTheme",
            ),
            FormatError::UnsupportedVersion { found } => {
                let mut line = String::from_str("Bad format: Not version 1 but ");
                push_decimal(&mut line, found as u64);
                line
            },
            FormatError::Truncated { offset, wanted } => {
                let mut line = String::from_str("Truncated: no ");
                push_decimal(&mut line, wanted);
                line.append(" bytes at offset ");
                push_decimal(&mut line, offset);
                line
            },
            FormatError::Decompression => String::from_str("Decompress: not a zlib stream"),
        }
    }
}

impl EncodeError {
    /// The line that reports this failure, with the dimensions that caused it.
    pub fn message(&self) -> (line: String)
        ensures
            line@ == encode_message(*self),
    {
        match *self {
            EncodeError::DimensionsTooLarge { width, height } => {
                let mut line = String::from_str("Bad format: too big: ");
                push_decimal(&mut line, width as u64);
                line.append(" x ");
                push_decimal(&mut line, height as u64);
                line
            },
        }
    }
}

} // verus!
