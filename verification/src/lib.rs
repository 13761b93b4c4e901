//! Record framing for a TLS-style transport: reassembles discrete protocol
//! records out of an arbitrarily chunked byte stream, validating every header
//! before any length field is trusted.

/// The wire format: record headers, their validity, and decoded messages.
pub mod message;

/// The deframer itself: buffering, boundary detection, and the record queue.
pub mod deframer;

/// Proved properties of the boundary-detection model.
pub mod laws;

pub use crate::deframer::{ByteSource, IoError, MessageDeframer, QUEUE_SIZE};
pub use crate::message::{content_type_from_byte, ContentType, Message, HEADER_SIZE, MAX_MESSAGE};
