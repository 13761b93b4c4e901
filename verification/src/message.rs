//! The wire format of a record: a five-byte header (one byte of record type,
//! two of protocol version, two of big-endian payload length) followed by
//! exactly the declared number of payload bytes.

use vstd::prelude::*;

verus! {

/// Bytes in a record header: one of record type, two of protocol version,
/// two of payload length.
pub const HEADER_SIZE: usize = 5;

/// Hard cap on the total on-the-wire size of one record: a 16384-byte
/// plaintext, a 2048-byte allowance for ciphertext expansion, and the header.
/// A header whose declared length would reach this cap is treated as
/// corruption before any payload bytes are awaited.
pub const MAX_MESSAGE: usize = 16384 + 2048 + HEADER_SIZE;

/// The record types the protocol defines. Any other record-type byte makes a
/// header invalid.
#[derive(Clone, Copy, Debug, PartialEq, Eq, Structural)]
pub enum ContentType {
    ChangeCipherSpec,
    Alert,
    Handshake,
    ApplicationData,
}

/// Whether a record-type byte names one of the protocol's record types.
pub open spec fn spec_content_type_valid(b: u8) -> bool {
    b == 20 || b == 21 || b == 22 || b == 23
}

/// The record type a valid record-type byte names.
pub open spec fn spec_content_type_of(b: u8) -> ContentType
    recommends
        spec_content_type_valid(b),
{
    if b == 20 {
        ContentType::ChangeCipherSpec
    } else if b == 21 {
        ContentType::Alert
    } else if b == 22 {
        ContentType::Handshake
    } else {
        ContentType::ApplicationData
    }
}

/// Decodes a record-type byte, refusing any byte outside the protocol's
/// defined record types.
pub fn content_type_from_byte(b: u8) -> (r: Option<ContentType>)
    ensures
        r == (if spec_content_type_valid(b) {
            Some(spec_content_type_of(b))
        } else {
            None::<ContentType>
        }),
{
    if b == 20 {
        Some(ContentType::ChangeCipherSpec)
    } else if b == 21 {
        Some(ContentType::Alert)
    } else if b == 22 {
        Some(ContentType::Handshake)
    } else if b == 23 {
        Some(ContentType::ApplicationData)
    } else {
        None
    }
}

/// The payload length a buffered header declares: its last two bytes,
/// big-endian.
pub open spec fn spec_payload_len(b: Seq<u8>) -> int
    recommends
        b.len() >= HEADER_SIZE,
{
    b[3] * 256 + b[4]
}

/// Whether the static fields of a buffered header are within the protocol's
/// valid ranges: a defined record type, and a protocol version whose major
/// byte is 3.
pub open spec fn spec_header_valid(b: Seq<u8>) -> bool
    recommends
        b.len() >= HEADER_SIZE,
{
    spec_content_type_valid(b[0]) && b[1] == 3
}

/// One decoded record: its type, its protocol version, and its payload, which
/// this layer delimits but never interprets.
#[derive(Clone, Debug, PartialEq, Eq)]
pub struct Message {
    /// Record type from the first header byte.
    pub typ: ContentType,
    /// Protocol version from the second and third header bytes, big-endian.
    pub version: u16,
    /// The payload bytes, exactly as many as the header declared.
    pub payload: Vec<u8>,
}

/// The mathematical value of a decoded record.
pub struct MessageView {
    /// Record type from the first header byte.
    pub typ: ContentType,
    /// Protocol version from the second and third header bytes, big-endian.
    pub version: u16,
    /// The payload bytes.
    pub payload: Seq<u8>,
}

impl View for Message {
    type V = MessageView;

    open spec fn view(&self) -> MessageView {
        MessageView { typ: self.typ, version: self.version, payload: self.payload@ }
    }
}

/// The record that a byte span of exactly header plus declared payload decodes
/// to.
pub open spec fn spec_message_of(b: Seq<u8>) -> MessageView
    recommends
        b.len() >= HEADER_SIZE,
{
    MessageView {
        typ: spec_content_type_of(b[0]),
        version: (b[1] * 256 + b[2]) as u16,
        payload: b.skip(HEADER_SIZE as int),
    }
}

/// A byte sequence that is exactly one well-formed record: a valid header
/// whose declared length is under the cap, followed by exactly that many
/// payload bytes.
pub open spec fn spec_record_wf(b: Seq<u8>) -> bool {
    &&& b.len() >= HEADER_SIZE
    &&& spec_header_valid(b)
    &&& spec_payload_len(b) < MAX_MESSAGE - HEADER_SIZE
    &&& b.len() == HEADER_SIZE + spec_payload_len(b)
}

impl Message {
    /// Checks the header at the front of `bytes`: returns the declared
    /// payload length if the static fields are within the protocol's valid
    /// ranges, and nothing if the header is damaged.
    pub fn check_header(bytes: &[u8]) -> (r: Option<usize>)
        requires
            bytes@.len() >= HEADER_SIZE,
        ensures
            r == (if spec_header_valid(bytes@) {
                Some(spec_payload_len(bytes@) as usize)
            } else {
                None::<usize>
            }),
    {
        let typ = bytes[0];
        if !(typ == 20 || typ == 21 || typ == 22 || typ == 23) {
            return None;
        }
        if bytes[1] != 3 {
            return None;
        }
        Some((bytes[3] as usize) * 256 + (bytes[4] as usize))
    }
}

} // verus!
