//! Opaque pagination tokens: a sequence number written as eight little-endian
//! bytes and then as base64 text.

use vstd::prelude::*;

verus! {

/// Why a token could not be read back as a sequence number.
#[derive(Debug, Clone, Copy, PartialEq, Eq, Structural)]
pub enum CursorError {
    /// The token is not base64 text.
    InvalidEncoding,
    /// The token decodes to fewer than eight bytes.
    Truncated,
}

/// What `base64::encode` makes of a byte string.
pub uninterp spec fn base64_text(bytes: Seq<u8>) -> Seq<char>;

/// What `base64::decode` makes of a text: the bytes, or `None` where the text
/// is not base64.
pub uninterp spec fn base64_bytes(text: Seq<char>) -> Option<Seq<u8>>;

/// The eight little-endian bytes of `v`.
pub open spec fn le_bytes(v: u64) -> Seq<u8> {
    seq![
        v as u8,
        (v >> 8u64) as u8,
        (v >> 16u64) as u8,
        (v >> 24u64) as u8,
        (v >> 32u64) as u8,
        (v >> 40u64) as u8,
        (v >> 48u64) as u8,
        (v >> 56u64) as u8,
    ]
}

/// The unsigned value of the first eight bytes of `b`, read little-endian.
pub open spec fn le_u64(b: Seq<u8>) -> u64
    recommends
        b.len() >= 8,
{
    (b[0] as u64) | ((b[1] as u64) << 8u64) | ((b[2] as u64) << 16u64) | ((b[3] as u64)
        << 24u64) | ((b[4] as u64) << 32u64) | ((b[5] as u64) << 40u64) | ((b[6] as u64)
        << 48u64) | ((b[7] as u64) << 56u64)
}

/// The token that stands for sequence number `seq`.
pub open spec fn cursor_text(seq: i64) -> Seq<char> {
    base64_text(le_bytes(seq as u64))
}

/// The sequence number that decoded bytes stand for.
pub open spec fn cursor_of_bytes(b: Seq<u8>) -> Result<i64, CursorError> {
    if b.len() < 8 {
        Err(CursorError::Truncated)
    } else {
        Ok(le_u64(b) as i64)
    }
}

/// What a token reads back as.
pub open spec fn cursor_value(token: Seq<char>) -> Result<i64, CursorError> {
    match base64_bytes(token) {
        None => Err(CursorError::InvalidEncoding),
        Some(b) => cursor_of_bytes(b),
    }
}

#[verifier::external_type_specification]
#[verifier::external_body]
pub struct ExDecodeError(base64::DecodeError);

/// Relies on base64::encode (standard alphabet, padded): the text depends on
/// the bytes alone, and base64::decode gives the bytes back from it.
#[verifier::external_body]
fn base64_encode(bytes: &[u8]) -> (r: String)
    ensures
        r@ == base64_text(bytes@),
        base64_bytes(r@) == Some(bytes@),
{
    base64::encode(bytes)
}

/// Relies on base64::decode (standard alphabet): the bytes depend on the text
/// alone, and an error comes exactly when the text is not base64.
#[verifier::external_body]
fn base64_decode(text: &str) -> (r: Result<Vec<u8>, base64::DecodeError>)
    ensures
        match r {
            Ok(b) => base64_bytes(text@) == Some(b@),
            Err(_) => base64_bytes(text@) is None,
        },
{
    base64::decode(text)
}

/// Relies on u64::to_le_bytes: the bytes of the value, least significant first.
#[verifier::external_body]
fn u64_to_le_bytes(v: u64) -> (r: [u8; 8])
    ensures
        r@ == le_bytes(v),
{
    v.to_le_bytes()
}

/// Relies on bytes::LittleEndian::read_i64: the first eight bytes, least
/// significant first, as a two's complement integer.
#[verifier::external_body]
fn read_i64_le(b: &[u8]) -> (r: i64)
    requires
        b@.len() >= 8,
    ensures
        r == le_u64(b@) as i64,
{
    <bytes::LittleEndian as bytes::ByteOrder>::read_i64(b)
}

/// Reading back the bytes of a value gives the value, for every `i64`.
pub proof fn lemma_le_round_trip(v: i64)
    ensures
        le_u64(le_bytes(v as u64)) as i64 == v,
{
    let u = v as u64;
    assert(((u as u8) as u64) | ((((u >> 8u64) as u8) as u64) << 8u64) | ((((u >> 16u64) as u8)
        as u64) << 16u64) | ((((u >> 24u64) as u8) as u64) << 24u64) | ((((u >> 32u64) as u8)
        as u64) << 32u64) | ((((u >> 40u64) as u8) as u64) << 40u64) | ((((u >> 48u64) as u8)
        as u64) << 48u64) | ((((u >> 56u64) as u8) as u64) << 56u64) == u) by (bit_vector);
    assert((u as i64) == v) by (bit_vector)
        requires
            u == v as u64,
    ;
}

/// The token for sequence number `seq`; reading it back gives `seq`.
pub fn encode_cursor(seq: i64) -> (r: String)
    ensures
        r@ == cursor_text(seq),
        cursor_value(r@) == Ok::<i64, CursorError>(seq),
{
    let bytes = u64_to_le_bytes(seq as u64);
    let r = base64_encode(&bytes);
    proof {
        lemma_le_round_trip(seq);
    }
    r
}

/// The sequence number that decoded token bytes stand for: `Truncated` below
/// eight bytes, else the first eight read little-endian; later bytes are
/// ignored.
pub fn cursor_from_bytes(b: &[u8]) -> (r: Result<i64, CursorError>)
    ensures
        r == cursor_of_bytes(b@),
{
    if b.len() < 8 {
        Err(CursorError::Truncated)
    } else {
        Ok(read_i64_le(b))
    }
}

/// Reads a token back as a sequence number.
pub fn decode_cursor(token: &str) -> (r: Result<i64, CursorError>)
    ensures
        r == cursor_value(token@),
        r == Err::<i64, CursorError>(CursorError::InvalidEncoding) <==> base64_bytes(token@) is None,
{
    match base64_decode(token) {
        Err(_) => Err(CursorError::InvalidEncoding),
        Ok(b) => cursor_from_bytes(b.as_slice()),
    }
}

} // verus!
