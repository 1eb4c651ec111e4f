//! Node keys: secret keys, signatures and the identities that follow from them.
use vstd::prelude::*;
use crate::id::EndpointId;

verus! {

/// The secret half of a node's key pair.
#[derive(Clone, Copy)]
pub struct SecretKey {
    pub bytes: [u8; 32],
}

/// A signature: the encoded point and the scalar.
#[derive(Clone, Copy, Debug, PartialEq, Eq)]
pub struct Signature {
    pub r: [u8; 32],
    pub s: [u8; 32],
}

/// Why a text is no public key.
#[derive(Clone, Copy, Debug, PartialEq, Eq, Structural)]
pub enum KeyError {
    BadHex,
    BadBase32,
    BadLength,
    /// The text is well formed, but its bytes are no public key.
    BadKey,
}

/// The text of an error.
pub open spec fn key_error_text(e: KeyError) -> Seq<char> {
    match e {
        KeyError::BadHex => "failed to decode hex string"@,
        KeyError::BadBase32 => "failed to decode base32 string"@,
        KeyError::BadLength => "invalid length"@,
        KeyError::BadKey => "data is not a valid public key"@,
    }
}

impl KeyError {
    /// The text of the error.
    pub fn to_text(&self) -> (r: &'static str)
        ensures
            r@ == key_error_text(*self),
    {
        match self {
            KeyError::BadHex => "failed to decode hex string",
            KeyError::BadBase32 => "failed to decode base32 string",
            KeyError::BadLength => "invalid length",
            KeyError::BadKey => "data is not a valid public key",
        }
    }
}

/// The public key that a text stands for, or why it stands for none.
pub uninterp spec fn key_of_text(text: Seq<char>) -> Result<[u8; 32], KeyError>;

/// The public key that belongs to a secret key.
pub uninterp spec fn public_key_of(secret: [u8; 32]) -> [u8; 32];

/// Whether 32 bytes are the encoding of a public key.
pub uninterp spec fn valid_public_key(key: [u8; 32]) -> bool;

/// The two halves of the signature that a secret key makes of a message.
pub uninterp spec fn signature_of(secret: [u8; 32], message: Seq<u8>) -> ([u8; 32], [u8; 32]);

/// Whether a signature of a message is accepted under a public key.
pub uninterp spec fn signature_holds(key: [u8; 32], message: Seq<u8>, r: [u8; 32], s: [u8; 32]) -> bool;

/// The encoding of the neutral point of the curve. A signature whose point this
/// is counts as degenerate and is refused by everyone.
pub open spec fn neutral_point() -> Seq<u8> {
    seq![1u8] + Seq::new(31, |i: int| 0u8)
}

/// Calls `SecretKey::public` of iroh. The result is a function of the secret key
/// and is accepted as a public key.
#[verifier::external_body]
pub(crate) fn public_key(secret: &[u8; 32]) -> (r: [u8; 32])
    ensures
        r == public_key_of(*secret),
        valid_public_key(r),
{
    *iroh::SecretKey::from_bytes(secret).public().as_bytes()
}

/// Calls `PublicKey::from_bytes` of iroh, which accepts some encodings and refuses
/// the others.
#[verifier::external_body]
pub(crate) fn is_public_key(key: &[u8; 32]) -> (r: bool)
    ensures
        r == valid_public_key(*key),
{
    iroh::PublicKey::from_bytes(key).is_ok()
}

/// Calls `from_str` of iroh's `PublicKey`, which reads hexadecimal and base32 texts. The
/// result is a function of the text, and the hexadecimal text of a public key gives the
/// key back.
#[verifier::external_body]
pub(crate) fn parse_key(text: &str) -> (r: Result<[u8; 32], KeyError>)
    ensures
        r == key_of_text(text@),
        forall|k: [u8; 32]|
            #[trigger] valid_public_key(k) && text@ == crate::text::hex(k@) ==> r is Ok && r->Ok_0 == k,
{
    match text.parse::<iroh::PublicKey>() {
        Ok(k) => Ok(*k.as_bytes()),
        Err(iroh::KeyParsingError::FailedToDecodeHex { .. }) => Err(KeyError::BadHex),
        Err(iroh::KeyParsingError::FailedToDecodeBase32 { .. }) => Err(KeyError::BadBase32),
        Err(iroh::KeyParsingError::InvalidLength { .. }) => Err(KeyError::BadLength),
        Err(_) => Err(KeyError::BadKey),
    }
}

/// Calls `SecretKey::sign` of iroh. The signature is a function of the key and the
/// message, and the public key of the signer accepts it unless the signature's
/// point is the neutral one.
#[verifier::external_body]
pub(crate) fn sign_message(secret: &[u8; 32], message: &[u8]) -> (r: Signature)
    ensures
        (r.r, r.s) == signature_of(*secret, message@),
        r.r@ != neutral_point() ==> signature_holds(public_key_of(*secret), message@, r.r, r.s),
{
    let bytes = iroh::SecretKey::from_bytes(secret).sign(message).to_bytes();
    let mut signature = Signature { r: [0; 32], s: [0; 32] };
    signature.r.copy_from_slice(&bytes[..32]);
    signature.s.copy_from_slice(&bytes[32..]);
    signature
}

/// Calls `PublicKey::verify` of iroh, after `PublicKey::from_bytes`. The answer is a
/// function of the key, the message and the signature, and is no for bytes that
/// are no public key.
#[verifier::external_body]
pub(crate) fn check_signature(key: &[u8; 32], message: &[u8], signature: &Signature) -> (r: bool)
    ensures
        r == signature_holds(*key, message@, signature.r, signature.s),
        r ==> valid_public_key(*key),
{
    let mut bytes = [0u8; 64];
    bytes[..32].copy_from_slice(&signature.r);
    bytes[32..].copy_from_slice(&signature.s);
    match iroh::PublicKey::from_bytes(key) {
        Ok(k) => k.verify(message, &iroh::Signature::from_bytes(&bytes)).is_ok(),
        Err(_) => false,
    }
}

/// Calls `SecretKey::generate` of iroh, which makes a key by chance. Nothing is promised
/// of the key.
#[verifier::external_body]
pub(crate) fn random_key() -> (r: [u8; 32]) {
    iroh::SecretKey::generate().to_bytes()
}

impl SecretKey {
    /// A new key, made by chance.
    pub fn generate() -> (r: Self) {
        SecretKey { bytes: random_key() }
    }

    /// The identity that this key gives its owner.
    pub open spec fn id(self) -> EndpointId {
        EndpointId { bytes: public_key_of(self.bytes) }
    }

    /// The identity that belongs to this key.
    pub fn public(&self) -> (r: EndpointId)
        ensures
            r == self.id(),
            valid_public_key(r.bytes),
    {
        EndpointId { bytes: public_key(&self.bytes) }
    }
}

} // verus!
