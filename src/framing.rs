//! Schema-id framing: a magic byte, the schema id as four big-endian bytes,
//! then the payload.
use vstd::prelude::*;

use redpanda_transform_sdk_sr::{decode_schema_id, encode_schema_id, SchemaId};

use crate::DecodeError;

verus! {

pub const MAGIC: u8 = 0;

/// The four big-endian bytes of a signed 32-bit id.
pub open spec fn id_bytes(id: i32) -> Seq<u8> {
    let u = id as u32;
    seq![(u >> 24u32) as u8, (u >> 16u32) as u8, (u >> 8u32) as u8, u as u8]
}

pub open spec fn framed(id: i32, payload: Seq<u8>) -> Seq<u8> {
    seq![MAGIC] + id_bytes(id) + payload
}

/// Relies on redpanda_transform_sdk_sr::encode_schema_id: the magic byte, the
/// id's big-endian bytes, then the payload.
#[verifier::external_body]
fn encode_framing(id: i32, payload: &[u8]) -> (r: Vec<u8>)
    ensures
        r@ == framed(id, payload@),
{
    encode_schema_id(SchemaId(id), payload)
}

/// Relies on redpanda_transform_sdk_sr::decode_schema_id: it fails unless the
/// text starts with the magic byte and has five bytes at least, and otherwise
/// splits it into the id and the rest.
#[verifier::external_body]
fn decode_framing(text: &[u8]) -> (r: Option<(i32, Vec<u8>)>)
    ensures
        r is Some <==> (text@.len() >= 5 && text@[0] == MAGIC),
        r matches Some((id, payload)) ==> text@ == framed(id, payload@),
{
    decode_schema_id(text).ok().map(|(id, rest)| (id.0, rest.to_vec()))
}

/// Frames `payload` with schema id `id`.
pub fn frame(id: i32, payload: &[u8]) -> (r: Vec<u8>)
    ensures
        r@ == framed(id, payload@),
{
    encode_framing(id, payload)
}

/// A framed payload, split.
#[derive(Debug, Clone)]
pub struct Framed {
    pub schema_id: i32,
    pub payload: Vec<u8>,
}

/// Splits a framed text into its schema id and payload.
pub fn unframe(text: &[u8]) -> (r: Result<Framed, DecodeError>)
    ensures
        r is Ok <==> (text@.len() >= 5 && text@[0] == MAGIC),
        r matches Ok(f) ==> text@ == framed(f.schema_id, f.payload@),
        r matches Err(e) ==> e == DecodeError::BadFraming,
{
    match decode_framing(text) {
        Some((schema_id, payload)) => Ok(Framed { schema_id, payload }),
        None => Err(DecodeError::BadFraming),
    }
}

/// Distinct ids have distinct big-endian bytes.
pub proof fn lemma_id_bytes_injective(a: i32, b: i32)
    requires
        id_bytes(a) == id_bytes(b),
    ensures
        a == b,
{
    let ua = a as u32;
    let ub = b as u32;
    assert(id_bytes(a)[0] == id_bytes(b)[0]);
    assert(id_bytes(a)[1] == id_bytes(b)[1]);
    assert(id_bytes(a)[2] == id_bytes(b)[2]);
    assert(id_bytes(a)[3] == id_bytes(b)[3]);
    assert(ua == ub) by (bit_vector)
        requires
            (ua >> 24u32) as u8 == (ub >> 24u32) as u8,
            (ua >> 16u32) as u8 == (ub >> 16u32) as u8,
            (ua >> 8u32) as u8 == (ub >> 8u32) as u8,
            ua as u8 == ub as u8,
    ;
    assert(a == b) by (bit_vector)
        requires
            a as u32 == b as u32,
    ;
}

/// Unframing a framed payload gives back the id and the payload it was
/// framed with: the framing is read back exactly as it was written.
pub proof fn lemma_frame_round_trip(id: i32, payload: Seq<u8>, read_id: i32, read_payload: Seq<u8>)
    requires
        framed(read_id, read_payload) == framed(id, payload),
    ensures
        read_id == id,
        read_payload == payload,
{
    let t = framed(id, payload);
    assert(framed(read_id, read_payload).subrange(1, 5) =~= id_bytes(read_id));
    assert(t.subrange(1, 5) =~= id_bytes(id));
    lemma_id_bytes_injective(read_id, id);
    assert(framed(read_id, read_payload).skip(5) =~= read_payload);
    assert(t.skip(5) =~= payload);
}

} // verus!
