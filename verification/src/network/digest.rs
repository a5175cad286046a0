//! SHA-256 digests and what is derived from them: the overlay's message ids
//! and the content address of a payload.

use vstd::prelude::*;

verus! {

/// Codec number of DAG-JSON.
pub const DAG_JSON_CODEC: u64 = 0x0129;

/// Multihash code of SHA-256.
pub const SHA2_256_CODE: u64 = 0x12;

/// Length of a SHA-256 digest, in bytes.
pub const SHA2_256_LENGTH: usize = 32;

/// Largest digest, in bytes, that a multihash of this crate holds.
pub const MULTIHASH_CAPACITY: usize = 64;

/// The SHA-256 digest of a byte string.
pub uninterp spec fn sha256(data: Seq<u8>) -> Seq<u8>;

/// The text form of the version 1 content identifier with the given codec
/// over the multihash with the given code and digest.
pub uninterp spec fn cid_v1_text(codec: u64, hash_code: u64, digest: Seq<u8>) -> Seq<char>;

/// Calls `sha2::Digest::digest` of `sha2::Sha256`, whose output has 32 bytes.
#[verifier::external_body]
fn sha256_digest(data: &[u8]) -> (digest: Vec<u8>)
    ensures
        digest@ == sha256(data@),
        digest@.len() == SHA2_256_LENGTH,
{
    <sha2::Sha256 as sha2::Digest>::digest(data).to_vec()
}

/// Calls `multihash::Multihash::wrap` with room for 64 bytes, which refuses a
/// longer digest and nothing else, then `cid::Cid::new_v1` and the
/// identifier's `to_string`.
#[verifier::external_body]
fn cid_v1_string(codec: u64, hash_code: u64, digest: &[u8]) -> (text: Option<String>)
    ensures
        text is Some <==> digest@.len() <= MULTIHASH_CAPACITY,
        text matches Some(t) ==> t@ == cid_v1_text(codec, hash_code, digest@),
{
    match multihash::Multihash::<64>::wrap(hash_code, digest) {
        Ok(hash) => Some(cid::Cid::new_v1(codec, hash).to_string()),
        Err(_) => None,
    }
}

/// The ASCII code of a lowercase hexadecimal digit.
pub open spec fn hex_digit(v: int) -> u8 {
    if v < 10 {
        (0x30 + v) as u8
    } else {
        (0x61 + (v - 10)) as u8
    }
}

/// The lowercase hexadecimal text of a byte string, in ASCII: two digits for
/// each byte, the high one first.
pub open spec fn hex_lower(bytes: Seq<u8>) -> Seq<u8> {
    Seq::new(
        2 * bytes.len(),
        |i: int|
            if i % 2 == 0 {
                hex_digit(bytes[i / 2] as int / 16)
            } else {
                hex_digit(bytes[i / 2] as int % 16)
            },
    )
}

fn hex_digit_of(v: u8) -> (digit: u8)
    requires
        v < 16,
    ensures
        digit == hex_digit(v as int),
{
    if v < 10 {
        0x30 + v
    } else {
        0x61 + (v - 10)
    }
}

/// Writes a byte string in lowercase hexadecimal.
pub fn to_hex_lower(bytes: &[u8]) -> (text: Vec<u8>)
    ensures
        text@ == hex_lower(bytes@),
{
    let mut text: Vec<u8> = Vec::new();
    let n = bytes.len();
    let mut i: usize = 0;
    while i < n
        invariant
            i <= n,
            n == bytes@.len(),
            text@.len() == 2 * i,
            forall|j: int| 0 <= j < 2 * i ==> text@[j] == hex_lower(bytes@)[j],
        decreases n - i,
    {
        let b = bytes[i];
        text.push(hex_digit_of(b / 16));
        text.push(hex_digit_of(b % 16));
        i += 1;
    }
    assert(text@ =~= hex_lower(bytes@));
    text
}

/// The id that the overlay gives a message: the lowercase hexadecimal
/// SHA-256 digest of its bytes.
pub open spec fn message_id_of(data: Seq<u8>) -> Seq<u8> {
    hex_lower(sha256(data))
}

/// Derives the overlay's id of a message from its bytes.
pub fn message_id(data: &[u8]) -> (id: Vec<u8>)
    ensures
        id@ == message_id_of(data@),
        id@.len() == 2 * SHA2_256_LENGTH,
{
    let digest = sha256_digest(data);
    to_hex_lower(digest.as_slice())
}

/// The content address of canonical payload bytes: CIDv1 with the DAG-JSON
/// codec over the SHA-256 multihash of the bytes.
pub open spec fn content_address(canonical: Seq<u8>) -> Seq<char> {
    cid_v1_text(DAG_JSON_CODEC, SHA2_256_CODE, sha256(canonical))
}

/// Derives the content address of canonical payload bytes.
pub fn content_address_of(canonical: &[u8]) -> (text: Option<String>)
    ensures
        text matches Some(t) && t@ == content_address(canonical@),
{
    let digest = sha256_digest(canonical);
    cid_v1_string(DAG_JSON_CODEC, SHA2_256_CODE, digest.as_slice())
}

} // verus!
