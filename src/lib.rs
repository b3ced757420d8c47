//! A minimal authoritative name-resolution responder: the binary message codec
//! (header, question and answer sections) and the record table it consults.

pub mod error;
pub mod name;
pub mod header;
pub mod wire;
pub mod message;
pub mod record_database;
pub mod responder;
pub mod zone;
