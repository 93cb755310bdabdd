//! The encryptor. A sealed archive is `nonce || ciphertext`: 12 bytes of nonce,
//! then the ChaCha20-Poly1305 encryption of the payload under that nonce, which
//! ends in the 16-byte tag.
//!
//! Every seal draws a fresh nonce from the operating system's random source. A
//! nonce must never serve twice under one key: with 96 random bits that holds
//! only as long as few archives are sealed under a key.

use vstd::prelude::*;
use vstd::slice::slice_subrange;
use crate::cipher::aead_decrypt;
use crate::cipher::aead_encrypt;
use crate::cipher::aead_opened;
use crate::cipher::aead_sealed;
use crate::cipher::MAX_PLAINTEXT_LEN;
use crate::cipher::NONCE_LEN;
use crate::cipher::TAG_LEN;
use crate::entropy::os_random;
use crate::error::PakError;
use crate::key::Key;

verus! {

/// A payload of this length can be sealed: one nonce can encrypt it, and the
/// sealed archive is no longer than a buffer can be.
pub open spec fn sealable(len: nat) -> bool {
    len <= MAX_PLAINTEXT_LEN && len + NONCE_LEN + TAG_LEN <= isize::MAX
}

/// The sealed archive that holds `plaintext` under `key` and `nonce`.
pub open spec fn sealed_bytes(key: Seq<u8>, nonce: Seq<u8>, plaintext: Seq<u8>) -> Seq<u8> {
    nonce + aead_sealed(key, nonce, plaintext)
}

/// What opening `sealed` under `key` gives: the first 12 bytes are the nonce,
/// the rest is the ciphertext. Nothing opens that is too short to hold a nonce,
/// or longer than the archive of the longest payload that one nonce can
/// encrypt.
pub open spec fn opened(key: Seq<u8>, sealed: Seq<u8>) -> Option<Seq<u8>> {
    if sealed.len() < NONCE_LEN || sealed.len() > NONCE_LEN + MAX_PLAINTEXT_LEN + TAG_LEN {
        None
    } else {
        aead_opened(key, sealed.take(NONCE_LEN as int), sealed.skip(NONCE_LEN as int))
    }
}

/// The framing loses nothing: to open a nonce followed by a ciphertext, which
/// holds no more than one nonce can encrypt, is to decrypt that ciphertext
/// under that nonce.
pub proof fn lemma_opened_of_joined(key: Seq<u8>, nonce: Seq<u8>, ciphertext: Seq<u8>)
    requires
        nonce.len() == NONCE_LEN,
        ciphertext.len() <= MAX_PLAINTEXT_LEN + TAG_LEN,
    ensures
        opened(key, nonce + ciphertext) == aead_opened(key, nonce, ciphertext),
{
    let sealed = nonce + ciphertext;
    assert(sealed.take(NONCE_LEN as int) =~= nonce);
    assert(sealed.skip(NONCE_LEN as int) =~= ciphertext);
}

/// Puts a sealed archive together: the nonce, then the ciphertext.
pub fn join_sealed(nonce: &[u8; 12], ciphertext: &[u8]) -> (sealed: Vec<u8>)
    ensures
        sealed@ == nonce@ + ciphertext@,
{
    let mut sealed: Vec<u8> = Vec::new();
    sealed.extend_from_slice(nonce.as_slice());
    sealed.extend_from_slice(ciphertext);
    assert(sealed@ =~= nonce@ + ciphertext@);
    sealed
}

/// Takes a sealed archive apart: its first 12 bytes are the nonce, the rest is
/// the ciphertext. `None` where there are fewer than 12 bytes.
pub fn split_sealed(sealed: &[u8]) -> (r: Option<([u8; 12], &[u8])>)
    ensures
        r is None <==> sealed.len() < NONCE_LEN,
        r matches Some((nonce, ciphertext)) ==> nonce@ == sealed@.take(NONCE_LEN as int)
            && ciphertext@ == sealed@.skip(NONCE_LEN as int),
{
    if sealed.len() < NONCE_LEN {
        return None;
    }
    let mut nonce = [0u8; 12];
    let mut i: usize = 0;
    while i < NONCE_LEN
        invariant
            i <= NONCE_LEN <= sealed.len(),
            forall|j: int| 0 <= j < i ==> nonce@[j] == sealed@[j],
        decreases NONCE_LEN - i,
    {
        nonce[i] = sealed[i];
        i = i + 1;
    }
    let ciphertext = slice_subrange(sealed, NONCE_LEN, sealed.len());
    assert(nonce@ =~= sealed@.take(NONCE_LEN as int));
    assert(ciphertext@ =~= sealed@.skip(NONCE_LEN as int));
    Some((nonce, ciphertext))
}

/// Whether a payload of this length can be sealed.
pub fn can_seal(len: usize) -> (yes: bool)
    ensures
        yes == sealable(len as nat),
{
    len as u64 <= MAX_PLAINTEXT_LEN && len <= isize::MAX as usize - (NONCE_LEN + TAG_LEN)
}

/// Seals `plaintext` under `key` with the nonce given. The caller answers for
/// the nonce: it must not have been used under this key before. The result is
/// the nonce followed by the ciphertext, is 28 bytes longer than the plaintext,
/// and opens to the plaintext under the same key. Fails with `PayloadTooLarge`
/// exactly where the plaintext is not `sealable`.
pub fn seal_with_nonce(key: &Key, nonce: &[u8; 12], plaintext: &[u8]) -> (r: Result<
    Vec<u8>,
    PakError,
>)
    ensures
        match r {
            Ok(sealed) => {
                &&& sealable(plaintext@.len())
                &&& sealed@ == sealed_bytes(key@, nonce@, plaintext@)
                &&& sealed.len() == plaintext.len() + NONCE_LEN + TAG_LEN
                &&& opened(key@, sealed@) == Some(plaintext@)
            },
            Err(e) => !sealable(plaintext@.len()) && e == PakError::PayloadTooLarge,
        },
{
    if !can_seal(plaintext.len()) {
        return Err(PakError::PayloadTooLarge);
    }
    match aead_encrypt(key.as_bytes(), nonce, plaintext) {
        Ok(ciphertext) => {
            proof {
                lemma_opened_of_joined(key@, nonce@, ciphertext@);
            }
            Ok(join_sealed(nonce, ciphertext.as_slice()))
        },
        Err(_) => Err(PakError::PayloadTooLarge),
    }
}

/// Seals `plaintext` with the nonce that the random source gave. Fails with
/// `PayloadTooLarge` exactly where the plaintext is not `sealable`, whatever was
/// drawn; else with `RandomSourceError` exactly where the source gave no nonce.
pub fn seal_with_drawn(key: &Key, drawn: Option<[u8; 12]>, plaintext: &[u8]) -> (r: Result<
    Vec<u8>,
    PakError,
>)
    ensures
        if !sealable(plaintext@.len()) {
            r matches Err(e) && e == PakError::PayloadTooLarge
        } else {
            match drawn {
                None => r matches Err(e) && e == PakError::RandomSourceError,
                Some(nonce) => {
                    &&& r matches Ok(sealed)
                    &&& sealed@ == sealed_bytes(key@, nonce@, plaintext@)
                    &&& sealed.len() == plaintext.len() + NONCE_LEN + TAG_LEN
                    &&& opened(key@, sealed@) == Some(plaintext@)
                },
            }
        },
{
    if !can_seal(plaintext.len()) {
        return Err(PakError::PayloadTooLarge);
    }
    match drawn {
        None => Err(PakError::RandomSourceError),
        Some(nonce) => seal_with_nonce(key, &nonce, plaintext),
    }
}

/// Seals `plaintext` under `key` with a nonce freshly drawn from the operating
/// system's random source. Fails with `PayloadTooLarge` exactly where the
/// plaintext is not `sealable`, and then no nonce is drawn. Of a plaintext that
/// is, what comes back is its sealed archive under some nonce of 12 bytes,
/// which is 28 bytes longer than the plaintext and opens to it under the same
/// key; or the source gave no nonce, which is `RandomSourceError`.
pub fn seal(key: &Key, plaintext: &[u8]) -> (r: Result<Vec<u8>, PakError>)
    ensures
        !sealable(plaintext@.len()) ==> (r matches Err(e) && e == PakError::PayloadTooLarge),
        sealable(plaintext@.len()) ==> match r {
            Ok(sealed) => {
                &&& exists|nonce: Seq<u8>|
                    nonce.len() == NONCE_LEN && sealed@ == #[trigger] sealed_bytes(
                        key@,
                        nonce,
                        plaintext@,
                    )
                &&& sealed.len() == plaintext.len() + NONCE_LEN + TAG_LEN
                &&& opened(key@, sealed@) == Some(plaintext@)
            },
            Err(e) => e == PakError::RandomSourceError,
        },
{
    if !can_seal(plaintext.len()) {
        return Err(PakError::PayloadTooLarge);
    }
    match os_random::<12>() {
        Ok(nonce) => {
            let r = seal_with_drawn(key, Some(nonce), plaintext);
            proof {
                assert(r->Ok_0@ == sealed_bytes(key@, nonce@, plaintext@));
            }
            r
        },
        Err(_) => seal_with_drawn(key, None, plaintext),
    }
}

/// Opens a sealed archive. Succeeds exactly where the bytes behind the first 12
/// authenticate under `key` with those 12 as the nonce, and then returns the
/// plaintext that was sealed, which is 28 bytes shorter than the archive.
/// Everything else is `Unauthenticated`, and no part of a plaintext comes with
/// it. An archive longer than any that `seal` can make is refused unread.
pub fn open(key: &Key, sealed: &[u8]) -> (r: Result<Vec<u8>, PakError>)
    ensures
        match r {
            Ok(plaintext) => opened(key@, sealed@) == Some(plaintext@) && plaintext.len()
                + NONCE_LEN + TAG_LEN == sealed.len(),
            Err(e) => e == PakError::Unauthenticated && opened(key@, sealed@) is None,
        },
{
    match split_sealed(sealed) {
        None => Err(PakError::Unauthenticated),
        Some((nonce, ciphertext)) => {
            if ciphertext.len() as u64 > MAX_PLAINTEXT_LEN + TAG_LEN as u64 {
                return Err(PakError::Unauthenticated);
            }
            match aead_decrypt(key.as_bytes(), &nonce, ciphertext) {
                Ok(plaintext) => Ok(plaintext),
                Err(_) => Err(PakError::Unauthenticated),
            }
        },
    }
}

} // verus!
