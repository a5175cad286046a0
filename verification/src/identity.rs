//! The long-lived Ed25519 application identity: key material, detached
//! signatures and their verification.

use crate::encoding::{
    base64_bytes, base64_text, decode_base64, encode_base64, is_base64_char, is_base64_string,
    lemma_base64_round_trip, lemma_base64_text_shape,
};
use vstd::prelude::*;

verus! {

/// Length of an Ed25519 secret key and of a public key, in bytes.
pub const KEY_LENGTH: usize = 32;

/// Length of an Ed25519 signature, in bytes.
pub const SIGNATURE_LENGTH: usize = 64;

/// Number of characters in the base64 text of a public key.
pub const PUBLIC_KEY_TEXT_LENGTH: usize = 44;

/// The public key that Ed25519 derives from 32 secret bytes.
pub uninterp spec fn ed25519_public_key(secret: Seq<u8>) -> Seq<u8>;

/// The detached signature that Ed25519 gives a message under 32 secret bytes.
pub uninterp spec fn ed25519_signature(secret: Seq<u8>, message: Seq<u8>) -> Seq<u8>;

/// Whether the 32 bytes are a public key that the curve accepts, and the 64
/// bytes a signature that it verifies on the message.
pub uninterp spec fn ed25519_accepts(
    public_key: Seq<u8>,
    message: Seq<u8>,
    signature: Seq<u8>,
) -> bool;

/// Calls `ed25519_dalek::SigningKey::generate` on `rand_core::OsRng` and hands
/// out the secret bytes of the new key. Nothing is known of them.
#[verifier::external_body]
fn fresh_secret() -> (secret: [u8; 32]) {
    ed25519_dalek::SigningKey::generate(&mut rand_core::OsRng).to_bytes()
}

/// Calls `ed25519_dalek::SigningKey::verifying_key` on the key made of the
/// secret bytes; the result depends on the secret alone.
#[verifier::external_body]
fn derive_public_key(secret: &[u8; 32]) -> (public_key: [u8; 32])
    ensures
        public_key@ == ed25519_public_key(secret@),
{
    ed25519_dalek::SigningKey::from_bytes(secret).verifying_key().to_bytes()
}

/// Calls `ed25519_dalek::Signer::sign` on the key made of the secret bytes.
/// Ed25519 signing is deterministic, and a signature so made verifies under
/// the public key of the same secret.
#[verifier::external_body]
fn sign_detached(secret: &[u8; 32], message: &[u8]) -> (signature: [u8; 64])
    ensures
        signature@ == ed25519_signature(secret@, message@),
        ed25519_accepts(ed25519_public_key(secret@), message@, signature@),
{
    ed25519_dalek::Signer::sign(&ed25519_dalek::SigningKey::from_bytes(secret), message).to_bytes()
}

/// Calls `ed25519_dalek::VerifyingKey::from_bytes`, which refuses bytes that
/// are no curve point, and then `ed25519_dalek::Verifier::verify`.
#[verifier::external_body]
fn signature_accepted(public_key: &[u8; 32], message: &[u8], signature: &[u8; 64]) -> (ok: bool)
    ensures
        ok == ed25519_accepts(public_key@, message@, signature@),
{
    match ed25519_dalek::VerifyingKey::from_bytes(public_key) {
        Ok(key) => ed25519_dalek::Verifier::verify(
            &key,
            message,
            &ed25519_dalek::Signature::from_bytes(signature),
        ).is_ok(),
        Err(_) => false,
    }
}

/// A detached Ed25519 signature.
#[derive(Clone, Copy, Debug)]
pub struct Signature {
    bytes: [u8; 64],
}

impl View for Signature {
    type V = Seq<u8>;

    closed spec fn view(&self) -> Seq<u8> {
        self.bytes@
    }
}

impl Signature {
    /// The 64 bytes of the signature.
    pub fn to_bytes(&self) -> (bytes: [u8; 64])
        ensures
            bytes@ == self@,
    {
        self.bytes
    }

    /// The signature that the 64 bytes hold.
    pub fn from_bytes(bytes: [u8; 64]) -> (signature: Self)
        ensures
            signature@ == bytes@,
    {
        Signature { bytes }
    }

    /// A signature has 64 bytes.
    pub proof fn lemma_length(&self)
        ensures
            self@.len() == SIGNATURE_LENGTH,
    {
    }
}

/// An Ed25519 public key.
#[derive(Clone, Copy, Debug)]
pub struct VerifyingKey {
    bytes: [u8; 32],
}

impl View for VerifyingKey {
    type V = Seq<u8>;

    closed spec fn view(&self) -> Seq<u8> {
        self.bytes@
    }
}

impl VerifyingKey {
    /// The 32 bytes of the key.
    pub fn as_bytes(&self) -> (bytes: &[u8; 32])
        ensures
            bytes@ == self@,
    {
        &self.bytes
    }

    /// The 32 bytes of the key, by value.
    pub fn to_bytes(&self) -> (bytes: [u8; 32])
        ensures
            bytes@ == self@,
    {
        self.bytes
    }

    /// A public key has 32 bytes.
    pub proof fn lemma_length(&self)
        ensures
            self@.len() == KEY_LENGTH,
    {
    }
}

/// Why stored key material was refused.
#[derive(Clone, Copy, Debug, PartialEq, Eq, Structural)]
pub enum IdentityError {
    /// The text is not standard base64.
    InvalidEncoding,
    /// The secret does not have 32 bytes.
    InvalidLength,
}

/// The user's pseudonymous signing identity: 32 bytes of Ed25519 secret
/// material, kept stable across sessions by whoever stores them.
pub struct UserIdentity {
    secret_bytes: [u8; 32],
}

impl Clone for UserIdentity {
    fn clone(&self) -> (copy: Self)
        ensures
            copy == *self,
    {
        UserIdentity { secret_bytes: self.secret_bytes }
    }
}

/// Whether a (message, signature, public key) triple verifies: both texts are
/// base64 of the right length, and Ed25519 accepts what they hold.
pub open spec fn signature_verifies(
    message: Seq<u8>,
    signature_b64: Seq<char>,
    public_key_b64: Seq<char>,
) -> bool {
    match (base64_bytes(public_key_b64), base64_bytes(signature_b64)) {
        (Some(public_key), Some(signature)) => {
            &&& public_key.len() == KEY_LENGTH
            &&& signature.len() == SIGNATURE_LENGTH
            &&& ed25519_accepts(public_key, message, signature)
        },
        _ => false,
    }
}

/// The base64 text of a 32-byte key has 44 characters, none of them `@` or a
/// space.
pub proof fn lemma_key_text_shape(key: Seq<u8>)
    requires
        key.len() == KEY_LENGTH,
    ensures
        base64_text(key).len() == PUBLIC_KEY_TEXT_LENGTH,
        !base64_text(key).contains('@'),
        !base64_text(key).contains(' '),
{
    lemma_base64_text_shape(key);
    let text = base64_text(key);
    assert forall|i: int| 0 <= i < text.len() implies text[i] != '@' && text[i] != ' ' by {
        assert(is_base64_char(text[i]));
    }
}

/// A malformed signature text, a malformed key text, a key that is not 32
/// bytes long or a signature that is not 64 bytes long never verifies.
pub proof fn lemma_malformed_never_verifies(
    message: Seq<u8>,
    signature_b64: Seq<char>,
    public_key_b64: Seq<char>,
)
    requires
        ({
            ||| base64_bytes(signature_b64) is None
            ||| base64_bytes(public_key_b64) is None
            ||| base64_bytes(signature_b64)->0.len() != SIGNATURE_LENGTH
            ||| base64_bytes(public_key_b64)->0.len() != KEY_LENGTH
        }),
    ensures
        !signature_verifies(message, signature_b64, public_key_b64),
{
}

impl UserIdentity {
    /// The secret bytes.
    pub closed spec fn secret(&self) -> Seq<u8> {
        self.secret_bytes@
    }

    /// The public key that belongs to the secret.
    pub open spec fn public_key(&self) -> Seq<u8> {
        ed25519_public_key(self.secret())
    }

    /// The secret has 32 bytes.
    pub proof fn lemma_secret_length(&self)
        ensures
            self.secret().len() == KEY_LENGTH,
    {
    }

    /// A fresh identity from the operating system's random source.
    pub fn generate() -> (identity: Self)
        ensures
            identity.secret().len() == KEY_LENGTH,
    {
        Self::from_secret(fresh_secret())
    }

    /// The identity with the given secret.
    pub fn from_secret(secret: [u8; 32]) -> (identity: Self)
        ensures
            identity.secret() == secret@,
    {
        UserIdentity { secret_bytes: secret }
    }

    /// The identity with the given secret; `None` unless there are 32 bytes.
    pub fn from_secret_bytes(bytes: &[u8]) -> (identity: Option<Self>)
        ensures
            identity is Some <==> bytes@.len() == KEY_LENGTH,
            identity matches Some(id) ==> id.secret() == bytes@,
    {
        if bytes.len() != 32 {
            return None;
        }
        let secret_bytes = to_array_32(bytes);
        Some(UserIdentity { secret_bytes })
    }

    /// The identity whose secret the base64 text holds.
    pub fn from_secret_b64(text: &str) -> (identity: Result<Self, IdentityError>)
        ensures
            match identity {
                Ok(id) => base64_bytes(text@) == Some(id.secret()),
                Err(IdentityError::InvalidEncoding) => base64_bytes(text@) is None,
                Err(IdentityError::InvalidLength) => {
                    &&& base64_bytes(text@) is Some
                    &&& base64_bytes(text@)->0.len() != KEY_LENGTH
                },
            },
    {
        match decode_base64(text) {
            None => Err(IdentityError::InvalidEncoding),
            Some(bytes) => match Self::from_secret_bytes(bytes.as_slice()) {
                Some(id) => Ok(id),
                None => Err(IdentityError::InvalidLength),
            },
        }
    }

    /// The secret bytes, for whoever stores the identity.
    pub fn secret_bytes(&self) -> (bytes: [u8; 32])
        ensures
            bytes@ == self.secret(),
    {
        self.secret_bytes
    }

    /// The secret as base64 text, as it stands in a stored identity.
    pub fn secret_b64(&self) -> (text: String)
        ensures
            text@ == base64_text(self.secret()),
            base64_bytes(text@) == Some(self.secret()),
    {
        proof {
            lemma_base64_round_trip(self.secret());
        }
        encode_base64(self.secret_bytes.as_slice())
    }

    /// Signs arbitrary bytes; the result is a detached signature.
    pub fn sign(&self, message: &[u8]) -> (signature: Signature)
        ensures
            signature@ == ed25519_signature(self.secret(), message@),
            signature@.len() == SIGNATURE_LENGTH,
            ed25519_accepts(self.public_key(), message@, signature@),
    {
        Signature { bytes: sign_detached(&self.secret_bytes, message) }
    }

    /// The public key of this identity.
    pub fn verifying_key(&self) -> (key: VerifyingKey)
        ensures
            key@ == self.public_key(),
            key@.len() == KEY_LENGTH,
    {
        VerifyingKey { bytes: derive_public_key(&self.secret_bytes) }
    }

    /// The public key as base64 text, as it is embedded in messages: always
    /// 44 characters, none of them `@` or a space.
    pub fn public_key_b64(&self) -> (text: String)
        ensures
            text@ == base64_text(self.public_key()),
            self.public_key().len() == KEY_LENGTH,
            text@.len() == PUBLIC_KEY_TEXT_LENGTH,
            is_base64_string(text@),
            !text@.contains('@'),
            !text@.contains(' '),
    {
        let key = self.verifying_key();
        proof {
            lemma_key_text_shape(key@);
        }
        encode_base64(key.as_bytes().as_slice())
    }

    /// Checks a (message, signature, public key) triple. Returns `false`, and
    /// never fails otherwise, for texts that are not base64, keys that are
    /// not 32 bytes, signatures that are not 64 bytes, keys that the curve
    /// refuses and signatures that do not verify.
    pub fn verify(message: &[u8], signature_b64: &str, public_key_b64: &str) -> (ok: bool)
        ensures
            ok == signature_verifies(message@, signature_b64@, public_key_b64@),
    {
        let public_key = match decode_base64(public_key_b64) {
            Some(bytes) => bytes,
            None => { return false; },
        };
        let signature = match decode_base64(signature_b64) {
            Some(bytes) => bytes,
            None => { return false; },
        };
        if public_key.len() != 32 || signature.len() != 64 {
            return false;
        }
        let key = to_array_32(public_key.as_slice());
        let sig = to_array_64(signature.as_slice());
        signature_accepted(&key, message, &sig)
    }
}

fn to_array_32(bytes: &[u8]) -> (out: [u8; 32])
    requires
        bytes@.len() == 32,
    ensures
        out@ == bytes@,
{
    let mut out = [0u8; 32];
    let mut i: usize = 0;
    while i < 32
        invariant
            i <= 32,
            bytes@.len() == 32,
            forall|j: int| 0 <= j < i ==> out@[j] == bytes@[j],
        decreases 32 - i,
    {
        out[i] = bytes[i];
        i += 1;
    }
    assert(out@ =~= bytes@);
    out
}

fn to_array_64(bytes: &[u8]) -> (out: [u8; 64])
    requires
        bytes@.len() == 64,
    ensures
        out@ == bytes@,
{
    let mut out = [0u8; 64];
    let mut i: usize = 0;
    while i < 64
        invariant
            i <= 64,
            bytes@.len() == 64,
            forall|j: int| 0 <= j < i ==> out@[j] == bytes@[j],
        decreases 64 - i,
    {
        out[i] = bytes[i];
        i += 1;
    }
    assert(out@ =~= bytes@);
    out
}

} // verus!
