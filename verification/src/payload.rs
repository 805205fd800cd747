//! Timestamped application payloads carried over the control channel.
//!
//! A payload is a byte message plus the nanosecond wall-clock instant of its
//! creation; the pair travels in a compact binary encoding. Encoding and
//! decoding are done by an outside library; this module pins them down as
//! inverse functions of the payload's fields.

use vstd::prelude::*;

use chrono::TimeZone;

verus! {

/// The bytes the standard binary encoding produces for a payload's fields.
pub uninterp spec fn payload_encoding(data: Seq<u8>, timestamp: i64) -> Seq<u8>;

/// The fields the standard binary decoding reads back from a byte string,
/// absent when the bytes are not a valid encoding.
pub uninterp spec fn payload_decoding(bytes: Seq<u8>) -> Option<(Seq<u8>, i64)>;

/// The text rendering of a nanosecond timestamp in the standard date-time
/// form for interchange.
pub uninterp spec fn rfc3339_of(timestamp: i64) -> Seq<char>;

/// The character string lossy UTF-8 decoding makes of a byte string.
pub uninterp spec fn utf8_lossy_of(bytes: Seq<u8>) -> Seq<char>;

/// Relies on bincode's `encode_to_vec` with the standard configuration: the
/// encoding of a `(Vec<u8>, i64)` pair is a function of the pair alone,
/// cannot fail, and `decode_from_slice` reads the pair back from it.
#[verifier::external_body]
fn encode_fields(data: &Vec<u8>, timestamp: i64) -> (r: Vec<u8>)
    ensures
        r@ == payload_encoding(data@, timestamp),
        payload_decoding(r@) == Some((data@, timestamp)),
{
    bincode::encode_to_vec((data.clone(), timestamp), bincode::config::standard())
        .expect("a byte vector and an integer always encode")
}

/// Relies on bincode's `decode_from_slice` with the standard configuration:
/// whether and what it decodes is a function of the bytes alone.
#[verifier::external_body]
fn decode_fields(bytes: &Vec<u8>) -> (r: Option<(Vec<u8>, i64)>)
    ensures
        match r {
            Some(p) => payload_decoding(bytes@) == Some((p.0@, p.1)),
            None => payload_decoding(bytes@) is None,
        },
{
    match bincode::decode_from_slice::<(Vec<u8>, i64), _>(bytes, bincode::config::standard()) {
        Ok((p, _)) => Some(p),
        Err(_) => None,
    }
}

/// Relies on chrono's `Utc::now`: the current wall-clock instant in
/// nanoseconds, zero if it does not fit the integer range.
#[verifier::external_body]
fn now_timestamp_nanos() -> (r: i64) {
    chrono::Utc::now().timestamp_nanos_opt().unwrap_or(0)
}

/// Relies on chrono's `Utc.timestamp_nanos` and `to_rfc3339`: the rendering
/// depends on the timestamp alone.
#[verifier::external_body]
fn rfc3339_exec(timestamp: i64) -> (r: String)
    ensures
        r@ == rfc3339_of(timestamp),
{
    chrono::Utc.timestamp_nanos(timestamp).to_rfc3339()
}

/// Relies on `String::from_utf8_lossy`: the result depends on the bytes
/// alone, and bytes that are valid ASCII come through unchanged.
#[verifier::external_body]
fn utf8_lossy_exec(bytes: &Vec<u8>) -> (r: String)
    ensures
        r@ == utf8_lossy_of(bytes@),
        (forall|i: int| 0 <= i < bytes@.len() ==> bytes@[i] < 128) ==> r@ == bytes@.map_values(
            |b: u8| b as char,
        ),
{
    String::from_utf8_lossy(bytes).to_string()
}

/// A timestamped application message.
#[derive(Debug)]
pub struct Payload {
    /// The message bytes.
    pub data: Vec<u8>,
    /// Wall-clock nanoseconds at creation.
    pub timestamp: i64,
}

impl Payload {
    /// A payload carrying `data`, stamped with the current wall clock.
    pub fn new(data: Vec<u8>) -> (p: Payload)
        ensures
            p.data@ == data@,
    {
        Payload { data, timestamp: now_timestamp_nanos() }
    }

    /// The message rendered as text (lossy where not valid UTF-8).
    pub fn data(&self) -> (r: String)
        ensures
            r@ == utf8_lossy_of(self.data@),
            (forall|i: int| 0 <= i < self.data@.len() ==> self.data@[i] < 128) ==> r@
                == self.data@.map_values(|b: u8| b as char),
    {
        utf8_lossy_exec(&self.data)
    }

    /// The creation instant rendered in the standard date-time form.
    pub fn timestamp(&self) -> (r: String)
        ensures
            r@ == rfc3339_of(self.timestamp),
    {
        rfc3339_exec(self.timestamp)
    }

    /// Relies on chrono's clock and duration rendering: the time elapsed
    /// since the payload's creation, as text. Depends on the clock, so
    /// nothing is promised of it.
    #[verifier::external_body]
    pub fn latency(&self) -> String {
        (chrono::Utc::now() - chrono::Utc.timestamp_nanos(self.timestamp)).to_string()
    }

    /// Encodes the payload for the wire. The result is the standard encoding
    /// of its fields, and decodes back to them.
    pub fn serialize(payload: Payload) -> (r: Vec<u8>)
        ensures
            r@ == payload_encoding(payload.data@, payload.timestamp),
            payload_decoding(r@) == Some((payload.data@, payload.timestamp)),
    {
        encode_fields(&payload.data, payload.timestamp)
    }

    /// Decodes a payload from received bytes; nothing if the bytes are not a
    /// valid encoding.
    pub fn deserialize(bytes: Vec<u8>) -> (r: Option<Payload>)
        ensures
            match r {
                Some(p) => payload_decoding(bytes@) == Some((p.data@, p.timestamp)),
                None => payload_decoding(bytes@) is None,
            },
    {
        match decode_fields(&bytes) {
            Some(p) => Some(Payload { data: p.0, timestamp: p.1 }),
            None => None,
        }
    }
}

} // verus!
