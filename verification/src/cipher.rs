//! ChaCha20-Poly1305, the cipher that seals an archive: a 256-bit key, a 96-bit
//! nonce, and a 128-bit tag at the end of the ciphertext. No associated data is
//! used.

use vstd::prelude::*;
use chacha20poly1305::aead::Aead;
use chacha20poly1305::ChaCha20Poly1305;
use chacha20poly1305::KeyInit;

verus! {

/// The number of bytes in a nonce.
pub const NONCE_LEN: usize = 12;

/// The number of bytes in the tag that ends a ciphertext.
pub const TAG_LEN: usize = 16;

/// The most bytes that one nonce can encrypt. The block counter of the
/// keystream has 32 bits and block 0 makes the key of the tag, so `0xFFFF_FFFE`
/// blocks of 64 bytes are left for the plaintext.
pub const MAX_PLAINTEXT_LEN: u64 = 0x3F_FFFF_FF80;

/// The ciphertext, tag included, that ChaCha20-Poly1305 makes of `plaintext`
/// under `key` and `nonce`, with no associated data.
pub uninterp spec fn aead_sealed(key: Seq<u8>, nonce: Seq<u8>, plaintext: Seq<u8>) -> Seq<u8>;

/// The plaintext that ChaCha20-Poly1305 recovers from the ciphertext `sealed`
/// under `key` and `nonce`, or `None` where the ciphertext does not
/// authenticate.
pub uninterp spec fn aead_opened(key: Seq<u8>, nonce: Seq<u8>, sealed: Seq<u8>) -> Option<Seq<u8>>;

/// The error of the cipher, which says nothing of its cause.
#[verifier::external_type_specification]
#[verifier::external_body]
pub struct ExAeadError(chacha20poly1305::Error);

/// Calls `Aead::encrypt` of `ChaCha20Poly1305`, made with `KeyInit::new` from
/// `key`. A plaintext that needs more keystream than one nonce gives makes the
/// cipher fail or panic, and one so long that 16 bytes more cannot be allocated
/// makes the allocation panic: both are left out. Of every other plaintext the
/// cipher makes a ciphertext, which is 16 bytes longer than the plaintext,
/// depends on the three arguments alone, and is one that `Aead::decrypt` turns
/// back into the plaintext under the same key and nonce.
#[verifier::external_body]
pub(crate) fn aead_encrypt(key: &[u8; 32], nonce: &[u8; 12], plaintext: &[u8]) -> (r: Result<
    Vec<u8>,
    chacha20poly1305::Error,
>)
    requires
        plaintext.len() <= MAX_PLAINTEXT_LEN,
        plaintext.len() + TAG_LEN <= isize::MAX,
    ensures
        r is Ok,
        r matches Ok(ciphertext) ==> ciphertext.len() == plaintext.len() + TAG_LEN,
        r matches Ok(ciphertext) ==> ciphertext@ == aead_sealed(key@, nonce@, plaintext@),
        r matches Ok(ciphertext) ==> aead_opened(key@, nonce@, ciphertext@) == Some(plaintext@),
{
    ChaCha20Poly1305::new(chacha20poly1305::Key::from_slice(key)).encrypt(
        chacha20poly1305::Nonce::from_slice(nonce),
        plaintext,
    )
}

/// Calls `Aead::decrypt` of `ChaCha20Poly1305`, made with `KeyInit::new` from
/// `key`. A ciphertext that holds more than one nonce can encrypt makes the
/// cipher fail or, if it is authentic, panic: it is left out. Of every other
/// ciphertext, whether the cipher succeeds, and with what, depends on the three
/// arguments alone; a plaintext that it hands out is 16 bytes shorter than the
/// ciphertext.
#[verifier::external_body]
pub(crate) fn aead_decrypt(key: &[u8; 32], nonce: &[u8; 12], ciphertext: &[u8]) -> (r: Result<
    Vec<u8>,
    chacha20poly1305::Error,
>)
    requires
        ciphertext.len() <= MAX_PLAINTEXT_LEN + TAG_LEN,
    ensures
        r matches Ok(plaintext) ==> aead_opened(key@, nonce@, ciphertext@) == Some(plaintext@),
        r matches Ok(plaintext) ==> plaintext.len() + TAG_LEN == ciphertext.len(),
        r is Err ==> aead_opened(key@, nonce@, ciphertext@) is None,
{
    ChaCha20Poly1305::new(chacha20poly1305::Key::from_slice(key)).decrypt(
        chacha20poly1305::Nonce::from_slice(nonce),
        ciphertext,
    )
}

} // verus!
