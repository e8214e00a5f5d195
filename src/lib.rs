//! Per-record validation and retry routing for a stream transform.
//!
//! Each inbound record carries an attempt-counted envelope. The library
//! decodes it, checks its subject (JSON syntax first, then conformance to a
//! schema), and decides where the record goes next: a success channel, the
//! retry channel with an incremented envelope, or the dead-letter channel.
//!
//! - `codec`: the envelope and its JSON wire text.
//! - `framing`: the schema-id framing of binary payloads.
//! - `validate`: the syntax and schema stages.
//! - `resolver`: a cache of schema texts by id.
//! - `router`: the retry state machine.
use vstd::prelude::*;

pub mod digits;
pub mod codec;
pub mod framing;
pub mod validate;
pub mod router;
pub mod resolver;

verus! {

/// Why an incoming record could not be decoded at all.
#[derive(Debug, Clone, Copy, PartialEq, Eq, Structural)]
pub enum DecodeError {
    /// The content is not valid base64.
    InvalidEncoding,
    /// The envelope text is not of the expected shape.
    MalformedEnvelope,
    /// The schema-id framing header is missing or short.
    BadFraming,
}

} // verus!
