use vstd::prelude::*;

use ring::signature::KeyPair;

verus! {

use crate::errors::SigningError;

/// The exact length of an Ed25519 signature, and so of the trailer that a
/// signed file carries.
pub const SIGNATURE_LENGTH: usize = 64;

/// The exact length of an Ed25519 public key.
pub const PUBLIC_KEY_LENGTH: usize = 32;

/// Whether ring accepts `key` as an unencrypted PKCS#8 v2 Ed25519 key
/// blob.
pub uninterp spec fn pkcs8_ok(key: Seq<u8>) -> bool;

/// The public key of the Ed25519 key pair held in a PKCS#8 key blob.
pub uninterp spec fn pubkey_of(key: Seq<u8>) -> Seq<u8>;

/// The Ed25519 signature over `msg` by the key pair held in `key`.
pub uninterp spec fn sig_of(key: Seq<u8>, msg: Seq<u8>) -> Seq<u8>;

/// Whether ring's Ed25519 verification accepts `sig` as a signature over
/// `msg` under the public key `pk`.
pub uninterp spec fn sig_valid(pk: Seq<u8>, msg: Seq<u8>, sig: Seq<u8>) -> bool;

/// Relies on ring's Ed25519KeyPair::generate_pkcs8 with SystemRandom: a
/// fresh key pair serialized as a PKCS#8 v2 document, a form that
/// from_pkcs8 accepts again. Nothing else is promised of the fresh key;
/// generation fails only when the system's entropy source does.
#[verifier::external_body]
fn generate_pkcs8_keypair() -> (r: Option<Vec<u8>>)
    ensures
        r matches Some(key) ==> pkcs8_ok(key@),
{
    let rng = ring::rand::SystemRandom::new();
    match ring::signature::Ed25519KeyPair::generate_pkcs8(&rng) {
        Ok(doc) => Some(doc.as_ref().to_vec()),
        Err(_) => None,
    }
}

/// Relies on ring's Ed25519KeyPair::from_pkcs8: whether it accepts the
/// blob, a function of the bytes alone.
#[verifier::external_body]
fn pkcs8_check(key: &Vec<u8>) -> (r: bool)
    ensures
        r == pkcs8_ok(key@),
{
    ring::signature::Ed25519KeyPair::from_pkcs8(key.as_slice()).is_ok()
}

/// Relies on ring's Ed25519KeyPair::from_pkcs8 and KeyPair::public_key:
/// the 32-byte public key held in the blob, a function of the blob alone.
#[verifier::external_body]
fn ed25519_pubkey(key: &Vec<u8>) -> (r: Option<Vec<u8>>)
    ensures
        r is Some <==> pkcs8_ok(key@),
        r matches Some(pk) ==> pk@ == pubkey_of(key@) && pk@.len() == PUBLIC_KEY_LENGTH,
{
    match ring::signature::Ed25519KeyPair::from_pkcs8(key.as_slice()) {
        Ok(kp) => Some(kp.public_key().as_ref().to_vec()),
        Err(_) => None,
    }
}

/// Relies on ring's Ed25519KeyPair::from_pkcs8 and Ed25519KeyPair::sign.
/// Ed25519 signing is deterministic, so the 64-byte signature is a
/// function of the key blob and the message alone; ring's verifier
/// accepts what sign produced under the same pair's public key.
#[verifier::external_body]
fn ed25519_sign(key: &Vec<u8>, msg: &Vec<u8>) -> (r: Option<Vec<u8>>)
    ensures
        r is Some <==> pkcs8_ok(key@),
        r matches Some(sig) ==> sig@ == sig_of(key@, msg@) && sig@.len() == SIGNATURE_LENGTH
            && sig_valid(pubkey_of(key@), msg@, sig@),
{
    match ring::signature::Ed25519KeyPair::from_pkcs8(key.as_slice()) {
        Ok(kp) => Some(kp.sign(msg.as_slice()).as_ref().to_vec()),
        Err(_) => None,
    }
}

/// Relies on ring's UnparsedPublicKey::verify with the ED25519 algorithm:
/// acceptance is a pure function of public key, message and signature
/// bytes, and malformed input is a rejection, never a panic.
#[verifier::external_body]
fn ed25519_verify(pk: &Vec<u8>, msg: &Vec<u8>, sig: &Vec<u8>) -> (r: bool)
    ensures
        r == sig_valid(pk@, msg@, sig@),
{
    ring::signature::UnparsedPublicKey::new(&ring::signature::ED25519, pk.as_slice()).verify(
        msg.as_slice(),
        sig.as_slice(),
    ).is_ok()
}

/// The decision made on a signed file's content under public key `pk`:
/// the content must be long enough to hold a payload besides the 64-byte
/// trailer, and the trailer must verify over the payload.
pub open spec fn verify_file_ok(pk: Seq<u8>, content: Seq<u8>) -> bool {
    content.len() > SIGNATURE_LENGTH && sig_valid(
        pk,
        content.take(content.len() - SIGNATURE_LENGTH),
        content.skip(content.len() - SIGNATURE_LENGTH),
    )
}

/// A signing identity: an Ed25519 key pair held as its raw PKCS#8 blob,
/// or nothing when key generation failed.
pub struct Signer {
    pub keypair: Option<Vec<u8>>,
}

impl Signer {
    /// Whether the key material the signer holds, if any, is a
    /// well-formed key blob.
    pub open spec fn wf(self) -> bool {
        self.keypair matches Some(k) ==> pkcs8_ok(k@)
    }

    /// Whether the signer holds key material at all.
    pub open spec fn has_key(self) -> bool {
        self.keypair is Some
    }

    /// The held key blob's bytes; empty when none is held.
    pub open spec fn key_bytes(self) -> Seq<u8> {
        match self.keypair {
            Some(k) => k@,
            None => Seq::empty(),
        }
    }

    /// Creates a signer with a freshly generated key pair, or with no key
    /// material when generation fails.
    pub fn new() -> (r: Signer)
        ensures
            r.wf(),
    {
        Signer { keypair: generate_pkcs8_keypair() }
    }

    /// Takes a raw PKCS#8 key blob, as read from a `.pk8` file, and
    /// returns a signer holding it; an ill-formed blob is rejected rather
    /// than kept as garbage key material.
    pub fn read_pk8(content: Vec<u8>) -> (r: Result<Signer, SigningError>)
        ensures
            pkcs8_ok(content@) ==> (r matches Ok(s) && s.keypair == Some(content) && s.wf()),
            !pkcs8_ok(content@) ==> r == Err::<Signer, SigningError>(SigningError::ParseKeyError),
    {
        if pkcs8_check(&content) {
            Ok(Signer { keypair: Some(content) })
        } else {
            Err(SigningError::ParseKeyError)
        }
    }

    /// Signs the message with the held key pair: the fixed-length Ed25519
    /// signature over it. Fails when no key material is held, or when the
    /// held blob is not a well-formed key.
    pub fn calculate_signature_from_bytes(&self, file: &Vec<u8>) -> (r: Result<
        Vec<u8>,
        SigningError,
    >)
        ensures
            self.has_key() && pkcs8_ok(self.key_bytes()) ==> (r matches Ok(sig) && sig@ == sig_of(
                self.key_bytes(),
                file@,
            ) && sig@.len() == SIGNATURE_LENGTH && sig_valid(
                pubkey_of(self.key_bytes()),
                file@,
                sig@,
            )),
            !self.has_key() ==> r == Err::<Vec<u8>, SigningError>(SigningError::ArgumentError),
            self.has_key() && !pkcs8_ok(self.key_bytes()) ==> r == Err::<Vec<u8>, SigningError>(
                SigningError::ParseKeyError,
            ),
    {
        match &self.keypair {
            Some(key) => match ed25519_sign(key, file) {
                Some(sig) => Ok(sig),
                None => Err(SigningError::ParseKeyError),
            },
            None => Err(SigningError::ArgumentError),
        }
    }

    /// Checks the given signature bytes against the message under the
    /// held key pair's public key.
    pub fn verify_bytes(&self, bytes_data: &Vec<u8>, bytes_signature: &Vec<u8>) -> (r: Result<
        (),
        SigningError,
    >)
        ensures
            self.has_key() && pkcs8_ok(self.key_bytes()) ==> (if sig_valid(
                pubkey_of(self.key_bytes()),
                bytes_data@,
                bytes_signature@,
            ) {
                r == Ok::<(), SigningError>(())
            } else {
                r == Err::<(), SigningError>(SigningError::SignatureVerificationError)
            }),
            !self.has_key() ==> r == Err::<(), SigningError>(SigningError::ArgumentError),
            self.has_key() && !pkcs8_ok(self.key_bytes()) ==> r == Err::<(), SigningError>(
                SigningError::ParseKeyError,
            ),
    {
        match &self.keypair {
            Some(key) => match ed25519_pubkey(key) {
                Some(pk) => {
                    if ed25519_verify(&pk, bytes_data, bytes_signature) {
                        Ok(())
                    } else {
                        Err(SigningError::SignatureVerificationError)
                    }
                },
                None => Err(SigningError::ParseKeyError),
            },
            None => Err(SigningError::ArgumentError),
        }
    }

    /// Splits a signed file's content into payload and 64-byte trailer
    /// and checks the trailer over the payload with the held key. Content
    /// of 64 bytes or fewer has no room for a payload and is rejected as
    /// such.
    pub fn verify_file(&self, content: &Vec<u8>) -> (r: Result<(), SigningError>)
        ensures
            content@.len() <= SIGNATURE_LENGTH ==> r == Err::<(), SigningError>(
                SigningError::ContentError,
            ),
            content@.len() > SIGNATURE_LENGTH && !self.has_key() ==> r == Err::<(), SigningError>(
                SigningError::ArgumentError,
            ),
            content@.len() > SIGNATURE_LENGTH && self.has_key() && !pkcs8_ok(self.key_bytes())
                ==> r == Err::<(), SigningError>(SigningError::ParseKeyError),
            content@.len() > SIGNATURE_LENGTH && self.has_key() && pkcs8_ok(self.key_bytes())
                ==> (if verify_file_ok(pubkey_of(self.key_bytes()), content@) {
                r == Ok::<(), SigningError>(())
            } else {
                r == Err::<(), SigningError>(SigningError::SignatureVerificationError)
            }),
    {
        let len = content.len();
        if len <= SIGNATURE_LENGTH {
            return Err(SigningError::ContentError);
        }
        let split = len - SIGNATURE_LENGTH;
        let mut data: Vec<u8> = Vec::new();
        let mut i: usize = 0;
        while i < split
            invariant
                split <= len == content@.len(),
                i <= split,
                data@ == content@.subrange(0, i as int),
            decreases split - i,
        {
            data.push(content[i]);
            proof {
                assert(data@ =~= content@.subrange(0, i + 1));
            }
            i = i + 1;
        }
        let mut sig: Vec<u8> = Vec::new();
        let mut j: usize = split;
        while j < len
            invariant
                split <= j <= len == content@.len(),
                sig@ == content@.subrange(split as int, j as int),
            decreases len - j,
        {
            sig.push(content[j]);
            proof {
                assert(sig@ =~= content@.subrange(split as int, j + 1));
            }
            j = j + 1;
        }
        self.verify_bytes(&data, &sig)
    }
}

/// Law: splitting `payload ++ trailer` at the trailer boundary recovers
/// exactly the payload and the trailer, whatever their bytes.
pub proof fn lemma_signed_file_framing(payload: Seq<u8>, trailer: Seq<u8>)
    requires
        trailer.len() == SIGNATURE_LENGTH,
    ensures
        (payload + trailer).take((payload + trailer).len() - SIGNATURE_LENGTH) == payload,
        (payload + trailer).skip((payload + trailer).len() - SIGNATURE_LENGTH) == trailer,
{
    assert((payload + trailer).take((payload + trailer).len() - SIGNATURE_LENGTH) =~= payload);
    assert((payload + trailer).skip((payload + trailer).len() - SIGNATURE_LENGTH) =~= trailer);
}

/// Law: a signature computed over a message verifies against that message
/// under the signer's own public key (the sign/verify round trip). The
/// result is true whenever the signer holds a well-formed key.
pub fn signing_roundtrip(signer: &Signer, msg: &Vec<u8>) -> (r: bool)
    ensures
        signer.has_key() && pkcs8_ok(signer.key_bytes()) ==> r,
{
    match signer.calculate_signature_from_bytes(msg) {
        Ok(sig) => match signer.verify_bytes(msg, &sig) {
            Ok(_) => true,
            Err(_) => false,
        },
        Err(_) => false,
    }
}

/// Law: framing a non-empty payload with its own signature yields content
/// that the signed-file check accepts (the signed-file round trip). The
/// result is true whenever the signer holds a well-formed key.
pub fn signed_file_roundtrip(signer: &Signer, content: &Vec<u8>) -> (r: bool)
    ensures
        signer.has_key() && pkcs8_ok(signer.key_bytes()) && content@.len() >= 1 ==> r,
{
    match signer.calculate_signature_from_bytes(content) {
        Ok(sig) => match crate::concat::append_signature(content, &sig) {
            Ok(signed) => {
                proof {
                    if sig@.len() == SIGNATURE_LENGTH {
                        lemma_signed_file_framing(content@, sig@);
                    }
                }
                match signer.verify_file(&signed) {
                    Ok(_) => true,
                    Err(_) => false,
                }
            },
            Err(_) => false,
        },
        Err(_) => false,
    }
}

} // verus!
