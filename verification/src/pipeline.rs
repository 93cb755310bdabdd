//! The two ends of the pipeline. Packing serializes the files, compresses the
//! body and seals the frame; unpacking opens, decompresses and parses. Any stage
//! that fails ends the run, and nothing is handed out.

use vstd::prelude::*;
use crate::archive::archive_bytes;
use crate::archive::archive_fits;
use crate::archive::deserialize;
use crate::archive::lemma_archive_round_trip;
use crate::archive::parse_archive;
use crate::archive::serialize;
use crate::archive::unfit_error;
use crate::archive::views;
use crate::archive::EntryView;
use crate::archive::FileEntry;
use crate::cipher::aead_opened;
use crate::cipher::aead_sealed;
use crate::cipher::NONCE_LEN;
use crate::cipher::TAG_LEN;
use crate::codec::compress;
use crate::codec::decompress;
use crate::codec::zstd_content;
use crate::codec::zstd_frame;
use crate::codec::COMPRESSION_LEVEL;
use crate::error::PakError;
use crate::key::Key;
use crate::seal::lemma_opened_of_joined;
use crate::seal::open;
use crate::seal::opened;
use crate::seal::seal;
use crate::seal::seal_with_nonce;
use crate::seal::sealable;
use crate::seal::sealed_bytes;

verus! {

/// The compressed body of the archive that holds `es`, or `None` where the
/// encoder refuses the body.
pub open spec fn frame_of(es: Seq<EntryView>) -> Option<Seq<u8>> {
    zstd_frame(archive_bytes(es), COMPRESSION_LEVEL)
}

/// Why the files cannot be packed, whatever the key and the nonce; `None` where
/// they can. Files that do not fit the fields of the body fail as `serialize`
/// does; a body that the encoder refuses is `CompressionError`; a frame that
/// cannot be sealed is `PayloadTooLarge`.
pub open spec fn pack_failure(es: Seq<EntryView>) -> Option<PakError> {
    if !archive_fits(es) {
        Some(unfit_error(es))
    } else {
        match frame_of(es) {
            None => Some(PakError::CompressionError),
            Some(frame) => if sealable(frame.len()) {
                None
            } else {
                Some(PakError::PayloadTooLarge)
            },
        }
    }
}

/// The files can be packed: they fit the fields of the body, the encoder makes
/// a frame of the body, and the frame can be sealed.
pub open spec fn packable(es: Seq<EntryView>) -> bool {
    pack_failure(es) is None
}

/// What packing `es` under `key` and `nonce` gives: the sealed frame of the
/// body, or the failure of `pack_failure`.
pub open spec fn packed(key: Seq<u8>, nonce: Seq<u8>, es: Seq<EntryView>) -> Result<
    Seq<u8>,
    PakError,
> {
    match pack_failure(es) {
        Some(e) => Err(e),
        None => Ok(sealed_bytes(key, nonce, frame_of(es)->0)),
    }
}

/// What unpacking `sealed` under `key` gives. Bytes that do not authenticate and
/// authentic bytes that are no frame fail alike, so that the failure tells
/// nothing of the plaintext.
pub open spec fn unpacked(key: Seq<u8>, sealed: Seq<u8>) -> Result<Seq<EntryView>, PakError> {
    match opened(key, sealed) {
        None => Err(PakError::Unauthenticated),
        Some(frame) => match zstd_content(frame) {
            None => Err(PakError::Unauthenticated),
            Some(body) => match parse_archive(body) {
                None => Err(PakError::MalformedArchive),
                Some(es) => Ok(es),
            },
        },
    }
}

/// The round trip: files that can be packed come back from their sealed
/// archive equal in path and content and in the same order, under whatever key
/// and nonce they were packed. What the library adds to the codec and the
/// cipher loses nothing; of those two it is taken that they restore what they
/// were given, and of the cipher that it adds the 16 bytes of the tag, which is
/// what their wrappers state of every frame and every ciphertext that they
/// hand out.
pub proof fn lemma_unpacked_of_packed(key: Seq<u8>, nonce: Seq<u8>, es: Seq<EntryView>)
    requires
        packable(es),
        nonce.len() == NONCE_LEN,
        zstd_content(frame_of(es)->0) == Some(archive_bytes(es)),
        aead_sealed(key, nonce, frame_of(es)->0).len() == frame_of(es)->0.len() + TAG_LEN,
        aead_opened(key, nonce, aead_sealed(key, nonce, frame_of(es)->0)) == Some(frame_of(es)->0),
    ensures
        packed(key, nonce, es) is Ok,
        unpacked(key, packed(key, nonce, es)->Ok_0) == Ok::<Seq<EntryView>, PakError>(es),
{
    lemma_opened_of_joined(key, nonce, aead_sealed(key, nonce, frame_of(es)->0));
    lemma_archive_round_trip(es);
}

/// Packs the files under `key` with the nonce given, which must not have been
/// used under this key before: serializes them, compresses the body and seals
/// the frame. The result is exactly what `packed` says: the sealed archive of
/// these files, in their order, or the failure that `pack_failure` owes them.
/// An archive that is handed out is 28 bytes longer than the frame, and
/// unpacks to the files under the same key.
pub fn pack_with_nonce(key: &Key, nonce: &[u8; 12], entries: &[FileEntry]) -> (r: Result<
    Vec<u8>,
    PakError,
>)
    ensures
        match r {
            Ok(sealed) => {
                &&& packed(key@, nonce@, views(entries@)) == Ok::<Seq<u8>, PakError>(sealed@)
                &&& sealed.len() == frame_of(views(entries@))->0.len() + NONCE_LEN + TAG_LEN
                &&& unpacked(key@, sealed@) == Ok::<Seq<EntryView>, PakError>(views(entries@))
            },
            Err(e) => packed(key@, nonce@, views(entries@)) == Err::<Seq<u8>, PakError>(e),
        },
{
    let body = match serialize(entries) {
        Ok(body) => body,
        Err(e) => {
            return Err(e);
        },
    };
    let frame = match compress(body.as_slice()) {
        Ok(frame) => frame,
        Err(e) => {
            return Err(e);
        },
    };
    seal_with_nonce(key, nonce, frame.as_slice())
}

/// Packs the files under `key` with a freshly drawn nonce: serializes them,
/// compresses the body and seals the frame. Files that cannot be packed fail
/// as `pack_failure` says, and then no nonce is drawn. Of files that can, the
/// result is their sealed archive under some nonce of 12 bytes, which is 28
/// bytes longer than the frame and unpacks to the files under the same key; or
/// no nonce could be drawn, which is `RandomSourceError`.
pub fn pack(key: &Key, entries: &[FileEntry]) -> (r: Result<Vec<u8>, PakError>)
    ensures
        match pack_failure(views(entries@)) {
            Some(failure) => r matches Err(e) && e == failure,
            None => match r {
                Ok(sealed) => {
                    &&& exists|nonce: Seq<u8>|
                        nonce.len() == NONCE_LEN && #[trigger] packed(
                            key@,
                            nonce,
                            views(entries@),
                        ) == Ok::<Seq<u8>, PakError>(sealed@)
                    &&& sealed.len() == frame_of(views(entries@))->0.len() + NONCE_LEN + TAG_LEN
                    &&& unpacked(key@, sealed@) == Ok::<Seq<EntryView>, PakError>(
                        views(entries@),
                    )
                },
                Err(e) => e == PakError::RandomSourceError,
            },
        },
{
    let body = match serialize(entries) {
        Ok(body) => body,
        Err(e) => {
            return Err(e);
        },
    };
    let frame = match compress(body.as_slice()) {
        Ok(frame) => frame,
        Err(e) => {
            return Err(e);
        },
    };
    let r = seal(key, frame.as_slice());
    proof {
        if r is Ok {
            let nonce = choose|nonce: Seq<u8>|
                nonce.len() == NONCE_LEN && r->Ok_0@ == #[trigger] sealed_bytes(
                    key@,
                    nonce,
                    frame@,
                );
            assert(packed(key@, nonce, views(entries@)) == Ok::<Seq<u8>, PakError>(r->Ok_0@));
        }
    }
    r
}

/// Unpacks a sealed archive: opens it, and only then decompresses the frame and
/// parses the body. Bytes that do not authenticate under `key`, or whose
/// plaintext is no frame, are `Unauthenticated`; an authentic frame whose
/// content is no archive body is `MalformedArchive`.
pub fn unpack(key: &Key, sealed: &[u8]) -> (r: Result<Vec<FileEntry>, PakError>)
    ensures
        match r {
            Ok(entries) => unpacked(key@, sealed@) == Ok::<Seq<EntryView>, PakError>(
                views(entries@),
            ),
            Err(e) => unpacked(key@, sealed@) == Err::<Seq<EntryView>, PakError>(e),
        },
{
    let frame = match open(key, sealed) {
        Ok(frame) => frame,
        Err(_) => {
            return Err(PakError::Unauthenticated);
        },
    };
    let body = match decompress(frame.as_slice()) {
        Ok(body) => body,
        Err(_) => {
            return Err(PakError::Unauthenticated);
        },
    };
    deserialize(body.as_slice())
}

/// The name of the archive file for a root: the root's name, then `.pak`.
pub open spec fn archive_name_of(root: Seq<u8>) -> Seq<u8> {
    root + seq![0x2Eu8, 0x70u8, 0x61u8, 0x6Bu8]
}

/// The name of the archive file for the root given.
pub fn archive_name(root: &[u8]) -> (name: Vec<u8>)
    ensures
        name@ == archive_name_of(root@),
{
    let mut name: Vec<u8> = Vec::new();
    name.extend_from_slice(root);
    name.push(0x2E);
    name.push(0x70);
    name.push(0x61);
    name.push(0x6B);
    assert(name@ =~= root@ + seq![0x2Eu8, 0x70u8, 0x61u8, 0x6Bu8]);
    name
}

} // verus!
