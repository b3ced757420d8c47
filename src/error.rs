//! Failures of decoding, encoding and configuration parsing.

use vstd::prelude::*;

verus! {

/// Why an operation of this library failed.
#[derive(Debug, Clone, Copy, PartialEq, Eq, Structural)]
pub enum DnsError {
    /// The buffer is too short, a label runs past its end, or a section is incomplete.
    MalformedMessage,
    /// A name cannot be written as a label sequence: an empty label, a label of
    /// more than 63 bytes, or more than 255 bytes in all.
    InvalidName,
    /// A zone entry does not have exactly four fields: name, class, type, data.
    MalformedZoneEntry,
    /// The class token of a zone entry is not one this responder serves.
    UnsupportedClass,
    /// The record-type token of a zone entry is not one this responder serves.
    UnsupportedRecordType,
    /// An address is not four dot-separated decimal integers from 0 to 255.
    InvalidAddressLiteral,
}

} // verus!
