use vstd::prelude::*;
use vstd::utf8::encode_utf8;
use vstd::string::StringSliceAdditionalSpecFns;
use chacha20poly1305::aead::{Aead, KeyInit, Payload};
use ed25519_dalek::{Signer, Verifier};
use hmac::Mac;
use crate::error::VaultError;
use crate::text::{from_hex, hex_decode, hex_encode, is_hex_text, to_hex, lemma_hex_round_trip};

verus! {

/// Argon2id with the crate's default parameters, 32 bytes of output.
pub uninterp spec fn argon2id_of(password: Seq<u8>, salt: Seq<u8>) -> Seq<u8>;

/// ChaCha20-Poly1305 encryption: ciphertext followed by the 16-byte tag.
pub uninterp spec fn chacha20poly1305_seal(
    key: Seq<u8>,
    nonce: Seq<u8>,
    aad: Seq<u8>,
    plaintext: Seq<u8>,
) -> Seq<u8>;

/// HMAC-SHA-512 of `message` under `key`.
pub uninterp spec fn hmac_sha512_of(key: Seq<u8>, message: Seq<u8>) -> Seq<u8>;

/// The ed25519 public key of a 32-byte secret key.
pub uninterp spec fn ed25519_public_of(secret: Seq<u8>) -> Seq<u8>;

/// The (deterministic) ed25519 signature of `message` under a 32-byte secret key.
pub uninterp spec fn ed25519_signature_of(secret: Seq<u8>, message: Seq<u8>) -> Seq<u8>;

/// Whether 32 bytes are the encoding of an ed25519 public key.
pub uninterp spec fn ed25519_key_valid(public: Seq<u8>) -> bool;

/// Whether an ed25519 signature of `message` checks under a public key.
pub uninterp spec fn ed25519_verifies(public: Seq<u8>, message: Seq<u8>, signature: Seq<u8>) -> bool;

/// Bytes of a nonce, which is stored in front of each ciphertext.
pub const NONCE_LEN: usize = 12;

/// Bytes of a vault key.
pub const KEY_LEN: usize = 32;

/// Whether ChaCha20-Poly1305 can encrypt a message of this many bytes
/// before its block counter runs out.
pub open spec fn sealable(len: nat) -> bool {
    len / 64 < 0xFFFF_FFFF
}

/// The stored form of `plaintext`: the nonce, then the authenticated
/// ciphertext, with the device identifier as associated data.
pub open spec fn sealed(key: Seq<u8>, device: Seq<u8>, nonce: Seq<u8>, plaintext: Seq<u8>) -> Seq<u8> {
    nonce + chacha20poly1305_seal(key, nonce, device, plaintext)
}

/// Whether `stored` is the nonce-prefixed encryption of `plaintext` under
/// `key` for `device`, with the nonce it begins with.
pub open spec fn opens_to(key: Seq<u8>, device: Seq<u8>, stored: Seq<u8>, plaintext: Seq<u8>) -> bool {
    &&& stored.len() >= NONCE_LEN
    &&& sealable(plaintext.len())
    &&& stored == sealed(key, device, stored.subrange(0, NONCE_LEN as int), plaintext)
}

/// The symmetric key that protects a vault; it exists only in memory.
pub struct VaultKey {
    bytes: Vec<u8>,
}

impl VaultKey {
    #[verifier::type_invariant]
    spec fn inv(self) -> bool {
        self.bytes@.len() == KEY_LEN
    }

    pub closed spec fn view(&self) -> Seq<u8> {
        self.bytes@
    }

    /// Derives the vault key from a PIN and the deployment's salt.
    pub fn from_pin(pin: &str, salt: &[u8]) -> (r: Result<VaultKey, VaultError>)
        ensures
            r is Ok <==> pin@.len() > 0 && pin.spec_bytes().len() <= 0xFFFF_FFFF && 8 <= salt@.len()
                <= 0xFFFF_FFFF,
            r is Ok ==> r->Ok_0@ == argon2id_of(encode_utf8(pin@), salt@) && r->Ok_0@.len() == KEY_LEN,
            r is Err ==> r == Err::<VaultKey, VaultError>(VaultError::KdfFailure),
    {
        if pin.is_empty() {
            return Err(VaultError::KdfFailure);
        }
        match argon2id_hash(pin.as_bytes(), salt) {
            Some(bytes) => Ok(VaultKey { bytes }),
            None => Err(VaultError::KdfFailure),
        }
    }
}

impl Drop for VaultKey {
    /// Overwrites the key with zeros before its memory is released.
    fn drop(&mut self)
        opens_invariants none
        no_unwind
    {
        proof {
            use_type_invariant(&*self);
        }
        wipe(&mut self.bytes);
    }
}

/// Relies on zeroize's Zeroize for byte slices: volatile writes, which the
/// compiler keeps, set every byte to zero; the length stays.
#[verifier::external_body]
fn wipe(bytes: &mut Vec<u8>)
    requires
        old(bytes)@.len() <= isize::MAX,
    ensures
        final(bytes)@ == Seq::new(old(bytes)@.len(), |i: int| 0u8),
    opens_invariants none
    no_unwind
{
    zeroize::Zeroize::zeroize(bytes.as_mut_slice())
}

/// Relies on argon2::Argon2::hash_password_into with Argon2::default():
/// it fails only when the password or salt is longer than 2^32 - 1 bytes or
/// the salt is shorter than 8, and otherwise fills the 32-byte output.
#[verifier::external_body]
fn argon2id_hash(password: &[u8], salt: &[u8]) -> (r: Option<Vec<u8>>)
    ensures
        r is Some <==> (password@.len() <= 0xFFFF_FFFF && 8 <= salt@.len() && salt@.len()
            <= 0xFFFF_FFFF),
        r is Some ==> r->0@ == argon2id_of(password@, salt@) && r->0@.len() == KEY_LEN,
{
    let mut out = vec![0u8; KEY_LEN];
    argon2::Argon2::default().hash_password_into(password, salt, &mut out).ok().map(|_| out)
}

/// Relies on chacha20poly1305's Aead::encrypt: it fails only when the
/// message outruns the block counter, and returns the ciphertext with the
/// 16-byte tag appended.
#[verifier::external_body]
fn chacha_seal(key: &[u8], nonce: &[u8], aad: &[u8], plaintext: &[u8]) -> (r: Option<Vec<u8>>)
    requires
        key@.len() == KEY_LEN,
        nonce@.len() == NONCE_LEN,
    ensures
        r is Some <==> sealable(plaintext@.len()),
        r is Some ==> r->0@ == chacha20poly1305_seal(key@, nonce@, aad@, plaintext@),
        r is Some ==> r->0@.len() == plaintext@.len() + 16,
{
    let cipher = chacha20poly1305::ChaCha20Poly1305::new(chacha20poly1305::Key::from_slice(key));
    cipher.encrypt(chacha20poly1305::Nonce::from_slice(nonce), Payload { msg: plaintext, aad }).ok()
}

/// Relies on chacha20poly1305's Aead::decrypt: it succeeds exactly on what
/// encrypt returns for the same key, nonce and associated data, and then
/// returns that plaintext.
#[verifier::external_body]
fn chacha_open(key: &[u8], nonce: &[u8], aad: &[u8], ciphertext: &[u8]) -> (r: Option<Vec<u8>>)
    requires
        key@.len() == KEY_LEN,
        nonce@.len() == NONCE_LEN,
    ensures
        r is Some ==> sealable(r->0@.len()) && chacha20poly1305_seal(key@, nonce@, aad@, r->0@)
            == ciphertext@,
        forall|p: Seq<u8>|
            sealable(p.len()) && #[trigger] chacha20poly1305_seal(key@, nonce@, aad@, p)
                == ciphertext@ ==> r is Some && r->0@ == p,
{
    let cipher = chacha20poly1305::ChaCha20Poly1305::new(chacha20poly1305::Key::from_slice(key));
    cipher.decrypt(chacha20poly1305::Nonce::from_slice(nonce), Payload { msg: ciphertext, aad }).ok()
}

/// Relies on rand::random, drawn from the thread-local generator that the
/// operating system seeds: `len` bytes, of which nothing else is known.
#[verifier::external_body]
pub(crate) fn random_bytes(len: usize) -> (r: Vec<u8>)
    ensures
        r@.len() == len,
{
    (0..len).map(|_| rand::random::<u8>()).collect()
}

/// Encrypts `data` under a fresh random nonce, binding it to the device
/// identifier; the result is the nonce followed by the ciphertext.
pub fn encrypt_with_binding(key: &VaultKey, hw_id: &[u8], data: &[u8]) -> (r: Result<Vec<u8>, VaultError>)
    ensures
        r is Ok <==> sealable(data@.len()),
        r is Ok ==> r->Ok_0@.len() == NONCE_LEN + data@.len() + 16 && r->Ok_0@ == sealed(
            key@,
            hw_id@,
            r->Ok_0@.subrange(0, NONCE_LEN as int),
            data@,
        ),
        r is Err ==> r == Err::<Vec<u8>, VaultError>(VaultError::SerializationError),
{
    proof {
        use_type_invariant(key);
    }
    let nonce = random_bytes(NONCE_LEN);
    match chacha_seal(key.bytes.as_slice(), nonce.as_slice(), hw_id, data) {
        Some(ciphertext) => {
            let mut out = nonce;
            let ghost n = out@;
            let mut tail = ciphertext;
            out.append(&mut tail);
            assert(out@.subrange(0, NONCE_LEN as int) =~= n);
            Ok(out)
        },
        None => Err(VaultError::SerializationError),
    }
}

/// Reverses `encrypt_with_binding`. Any failure, whether a wrong key, a wrong
/// device or altered bytes, gives the same `AuthenticationFailure`.
pub fn decrypt_with_binding(key: &VaultKey, hw_id: &[u8], data: &[u8]) -> (r: Result<Vec<u8>, VaultError>)
    ensures
        r is Ok ==> data@.len() >= NONCE_LEN && sealable(r->Ok_0@.len()) && data@ == sealed(
            key@,
            hw_id@,
            data@.subrange(0, NONCE_LEN as int),
            r->Ok_0@,
        ),
        forall|nonce: Seq<u8>, p: Seq<u8>|
            nonce.len() == NONCE_LEN && sealable(p.len()) && data@ == #[trigger] sealed(
                key@,
                hw_id@,
                nonce,
                p,
            ) ==> r is Ok && r->Ok_0@ == p,
        r is Err ==> r == Err::<Vec<u8>, VaultError>(VaultError::AuthenticationFailure),
{
    proof {
        use_type_invariant(key);
    }
    if data.len() < NONCE_LEN {
        return Err(VaultError::AuthenticationFailure);
    }
    let (nonce, ciphertext) = data.split_at(NONCE_LEN);
    let r = chacha_open(key.bytes.as_slice(), nonce, hw_id, ciphertext);
    proof {
        assert(data@ =~= nonce@ + ciphertext@);
        assert forall|n: Seq<u8>, p: Seq<u8>|
            n.len() == NONCE_LEN && sealable(p.len()) && data@ == #[trigger] sealed(key@, hw_id@, n, p)
            implies r is Some && r->0@ == p by {
            assert(n =~= data@.subrange(0, NONCE_LEN as int));
            assert(chacha20poly1305_seal(key@, n, hw_id@, p) =~= ciphertext@);
        }
    }
    match r {
        Some(plaintext) => Ok(plaintext),
        None => Err(VaultError::AuthenticationFailure),
    }
}

/// Relies on hmac::SimpleHmac<sha2::Sha512>: HMAC-SHA-512 of `message`
/// under `key`, 64 bytes; a key of any length is accepted.
#[verifier::external_body]
pub(crate) fn hmac_sha512(key: &[u8], message: &[u8]) -> (r: Vec<u8>)
    ensures
        r@ == hmac_sha512_of(key@, message@),
        r@.len() == 64,
{
    let mut mac = <hmac::SimpleHmac<sha2::Sha512> as Mac>::new_from_slice(key)
        .expect("HMAC takes keys of any length");
    mac.update(message);
    mac.finalize().into_bytes().to_vec()
}

/// Relies on ed25519_dalek::SigningKey::from_bytes and verifying_key: the
/// 32-byte public key of a 32-byte secret key.
#[verifier::external_body]
pub(crate) fn ed25519_public_key(secret: &[u8]) -> (r: Vec<u8>)
    requires
        secret@.len() == 32,
    ensures
        r@ == ed25519_public_of(secret@),
        r@.len() == 32,
{
    let secret: [u8; 32] = secret.try_into().expect("length is 32");
    ed25519_dalek::SigningKey::from_bytes(&secret).verifying_key().to_bytes().to_vec()
}

/// Relies on ed25519_dalek's Signer::sign for SigningKey: the deterministic
/// 64-byte signature of `message`.
#[verifier::external_body]
pub(crate) fn ed25519_sign(secret: &[u8], message: &[u8]) -> (r: Vec<u8>)
    requires
        secret@.len() == 32,
    ensures
        r@ == ed25519_signature_of(secret@, message@),
        r@.len() == 64,
{
    let secret: [u8; 32] = secret.try_into().expect("length is 32");
    ed25519_dalek::SigningKey::from_bytes(&secret).sign(message).to_bytes().to_vec()
}

/// Relies on ed25519_dalek::VerifyingKey::from_bytes and Verifier::verify:
/// `None` when the bytes are not a valid public key, which never happens to
/// the public key of a secret key; otherwise whether the signature checks,
/// which it does for the signature that secret key makes. Both outcomes
/// depend on the bytes alone.
#[verifier::external_body]
fn ed25519_verify(public: &[u8], message: &[u8], signature: &[u8]) -> (r: Option<bool>)
    requires
        public@.len() == 32,
        signature@.len() == 64,
    ensures
        r is Some <==> ed25519_key_valid(public@),
        r is Some ==> r->0 == ed25519_verifies(public@, message@, signature@),
        forall|s: Seq<u8>|
            s.len() == 32 && public@ == #[trigger] ed25519_public_of(s) ==> r is Some,
        forall|s: Seq<u8>|
            s.len() == 32 && public@ == ed25519_public_of(s) && signature@
                == #[trigger] ed25519_signature_of(s, message@) ==> r == Some(true),
{
    let public: [u8; 32] = public.try_into().expect("length is 32");
    let signature: [u8; 64] = signature.try_into().expect("length is 64");
    match ed25519_dalek::VerifyingKey::from_bytes(&public) {
        Ok(key) => Some(key.verify(message, &ed25519_dalek::Signature::from_bytes(&signature)).is_ok()),
        Err(_) => None,
    }
}

/// Whether `signature_hex` is, in hexadecimal, the signature of `message` by
/// a secret key whose public key is `public`.
pub open spec fn signature_accepted(public: Seq<u8>, message: Seq<u8>, signature_hex: Seq<char>) -> bool {
    exists|s: Seq<u8>|
        #![trigger ed25519_signature_of(s, message)]
        s.len() == 32 && public.len() == 32 && public == ed25519_public_of(s) && is_hex_text(signature_hex) && hex_decode(
            signature_hex,
        ) == ed25519_signature_of(s, message) && hex_decode(signature_hex).len() == 64
}

/// What checking a hexadecimal signature gives: a key of the wrong length,
/// a signature that is not 64 bytes in hexadecimal, and bytes that are not a
/// public key are errors, in that order; otherwise whether it checks.
pub open spec fn verification_result(public: Seq<u8>, message: Seq<u8>, signature_hex: Seq<char>) -> Result<
    bool,
    VaultError,
> {
    if public.len() != 32 {
        Err(VaultError::InvalidKeyLength)
    } else if !(is_hex_text(signature_hex) && hex_decode(signature_hex).len() == 64) {
        Err(VaultError::MalformedSignature)
    } else if !ed25519_key_valid(public) {
        Err(VaultError::InvalidPublicKey)
    } else {
        Ok(ed25519_verifies(public, message, hex_decode(signature_hex)))
    }
}

/// Signs `message` with a 32-byte ed25519 secret key; the signature comes
/// back as lowercase hexadecimal.
pub fn sign_with_key(priv_key: &[u8], message: &[u8]) -> (r: Result<String, VaultError>)
    ensures
        r is Ok <==> priv_key@.len() == 32,
        r is Ok ==> r->Ok_0@ == hex_encode(ed25519_signature_of(priv_key@, message@))
            && ed25519_signature_of(priv_key@, message@).len() == 64,
        r is Err ==> r == Err::<String, VaultError>(VaultError::InvalidKeyLength),
{
    if priv_key.len() != 32 {
        return Err(VaultError::InvalidKeyLength);
    }
    let signature = ed25519_sign(priv_key, message);
    Ok(to_hex(signature.as_slice()))
}

/// Checks a hexadecimal signature of `message` against a 32-byte public key.
/// A signature that does not check is `Ok(false)`, not an error.
pub fn verify_with_key(pub_key: &[u8], message: &[u8], signature_hex: &str) -> (r: Result<bool, VaultError>)
    ensures
        r == verification_result(pub_key@, message@, signature_hex@),
        r == Err::<bool, VaultError>(VaultError::InvalidKeyLength) <==> pub_key@.len() != 32,
        r == Err::<bool, VaultError>(VaultError::MalformedSignature) <==> (pub_key@.len() == 32 && !(
        is_hex_text(signature_hex@) && hex_decode(signature_hex@).len() == 64)),
        r == Err::<bool, VaultError>(VaultError::InvalidPublicKey) <==> (pub_key@.len() == 32
            && is_hex_text(signature_hex@) && hex_decode(signature_hex@).len() == 64
            && !ed25519_key_valid(pub_key@)),
        r == Err::<bool, VaultError>(VaultError::InvalidPublicKey) ==> forall|s: Seq<u8>|
            s.len() == 32 ==> #[trigger] ed25519_public_of(s) != pub_key@,
        r is Ok ==> r->Ok_0 == ed25519_verifies(pub_key@, message@, hex_decode(signature_hex@)),
        r is Err ==> r == Err::<bool, VaultError>(VaultError::InvalidKeyLength) || r == Err::<
            bool,
            VaultError,
        >(VaultError::MalformedSignature) || r == Err::<bool, VaultError>(
            VaultError::InvalidPublicKey,
        ),
        signature_accepted(pub_key@, message@, signature_hex@) ==> r == Ok::<bool, VaultError>(
            true,
        ),
{
    if pub_key.len() != 32 {
        return Err(VaultError::InvalidKeyLength);
    }
    let signature = match from_hex(signature_hex) {
        Some(bytes) => bytes,
        None => {
            return Err(VaultError::MalformedSignature);
        },
    };
    if signature.len() != 64 {
        return Err(VaultError::MalformedSignature);
    }
    match ed25519_verify(pub_key, message, signature.as_slice()) {
        Some(valid) => Ok(valid),
        None => Err(VaultError::InvalidPublicKey),
    }
}

/// A signature made with a secret key is accepted under that key's public
/// key, for every message.
pub proof fn lemma_signature_accepted(secret: Seq<u8>, message: Seq<u8>)
    requires
        secret.len() == 32,
        ed25519_public_of(secret).len() == 32,
        ed25519_signature_of(secret, message).len() == 64,
    ensures
        signature_accepted(
            ed25519_public_of(secret),
            message,
            hex_encode(ed25519_signature_of(secret, message)),
        ),
{
    lemma_hex_round_trip(ed25519_signature_of(secret, message));
}

} // verus!
