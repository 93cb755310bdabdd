use lightbyte::archive::serialize;
use lightbyte::archive::FileEntry;
use lightbyte::codec::compress;
use lightbyte::codec::decompress;
use lightbyte::error::PakError;
use lightbyte::key::Key;
use lightbyte::pipeline::archive_name;
use lightbyte::pipeline::pack;
use lightbyte::pipeline::pack_with_nonce;
use lightbyte::pipeline::unpack;
use lightbyte::seal::open;
use lightbyte::seal::seal;
use lightbyte::seal::seal_with_nonce;

fn key() -> Key {
    let mut bytes = [0u8; 32];
    for (i, b) in bytes.iter_mut().enumerate() {
        *b = (i as u8) ^ 0x5C;
    }
    Key::from_bytes(bytes)
}

fn entry(path: &[u8], content: &[u8]) -> FileEntry {
    FileEntry { path: path.to_vec(), content: content.to_vec() }
}

fn files() -> Vec<FileEntry> {
    vec![
        entry(b"assets/empty.bin", b""),
        entry(b"assets/sprite.png", &[0x89, b'P', b'N', b'G', 0x0D, 0x0A, 0x1A, 0x0A, 0, 0xFF]),
        entry(b"assets/level/01.map", &vec![7u8; 100_000]),
        entry(b"assets/all-bytes", &(0..=255u8).collect::<Vec<u8>>()),
    ]
}

#[test]
fn unpack_undoes_pack() {
    let sealed = pack(&key(), &files()).unwrap();
    assert_eq!(unpack(&key(), &sealed), Ok(files()));
}

#[test]
fn round_trip_stage_by_stage() {
    let body = serialize(&files()).unwrap();
    let frame = compress(&body).unwrap();
    let sealed = seal(&key(), &frame).unwrap();
    let opened = open(&key(), &sealed).unwrap();
    assert_eq!(opened, frame);
    let restored = decompress(&opened).unwrap();
    assert_eq!(restored, body);
    assert_eq!(lightbyte::archive::deserialize(&restored), Ok(files()));
}

#[test]
fn empty_directory_packs_to_an_archive_without_files() {
    let sealed = pack(&key(), &[]).unwrap();
    assert!(sealed.len() > 28);
    let frame = open(&key(), &sealed).unwrap();
    assert_eq!(decompress(&frame), Ok(vec![0, 0, 0, 0]));
    assert_eq!(unpack(&key(), &sealed), Ok(vec![]));
}

#[test]
fn pack_with_nonce_is_seal_of_compress_of_serialize() {
    let nonce = [0x11u8; 12];
    let sealed = pack_with_nonce(&key(), &nonce, &files()).unwrap();
    let frame = compress(&serialize(&files()).unwrap()).unwrap();
    assert_eq!(sealed, seal_with_nonce(&key(), &nonce, &frame).unwrap());
    assert_eq!(&sealed[..12], &nonce);
    assert_eq!(unpack(&key(), &sealed), Ok(files()));
}

#[test]
fn pack_keeps_the_order_of_the_files() {
    let mut reversed = files();
    reversed.reverse();
    let sealed = pack(&key(), &reversed).unwrap();
    assert_eq!(unpack(&key(), &sealed), Ok(reversed));
}

#[test]
fn two_packs_of_the_same_files_differ() {
    let a = pack(&key(), &files()).unwrap();
    let b = pack(&key(), &files()).unwrap();
    assert_ne!(a, b);
    assert_ne!(a[..12], b[..12]);
}

#[test]
fn pack_fails_on_a_path_that_is_too_long() {
    let entries = vec![entry(&vec![b'p'; 65536], b"")];
    assert_eq!(pack(&key(), &entries), Err(PakError::PathTooLong));
    assert_eq!(pack_with_nonce(&key(), &[0; 12], &entries), Err(PakError::PathTooLong));
}

#[test]
fn unpack_of_a_tampered_archive_is_unauthenticated() {
    let sealed = pack(&key(), &files()).unwrap();
    for at in [0usize, 11, 12, 13, sealed.len() / 2, sealed.len() - 17, sealed.len() - 1] {
        let mut tampered = sealed.clone();
        tampered[at] ^= 0x01;
        assert_eq!(unpack(&key(), &tampered), Err(PakError::Unauthenticated), "byte {}", at);
    }
}

#[test]
fn unpack_under_another_key_is_unauthenticated() {
    let sealed = pack(&key(), &files()).unwrap();
    assert_eq!(unpack(&Key::from_bytes([0u8; 32]), &sealed), Err(PakError::Unauthenticated));
}

#[test]
fn unpack_of_too_few_bytes_is_unauthenticated() {
    assert_eq!(unpack(&key(), &[]), Err(PakError::Unauthenticated));
    assert_eq!(unpack(&key(), &[0; 27]), Err(PakError::Unauthenticated));
}

#[test]
fn authentic_bytes_that_are_no_frame_fail_like_a_bad_tag() {
    let sealed = seal(&key(), b"sealed, but never compressed").unwrap();
    assert_eq!(unpack(&key(), &sealed), Err(PakError::Unauthenticated));
}

#[test]
fn authentic_frame_that_is_no_archive_is_malformed() {
    let frame = compress(&[3, 0, 0, 0, 1, 0]).unwrap();
    let sealed = seal(&key(), &frame).unwrap();
    assert_eq!(unpack(&key(), &sealed), Err(PakError::MalformedArchive));
}

#[test]
fn authentic_frame_with_a_wrong_count_is_malformed() {
    let mut body = serialize(&files()).unwrap();
    body[0] = 3;
    let sealed = seal(&key(), &compress(&body).unwrap()).unwrap();
    assert_eq!(unpack(&key(), &sealed), Err(PakError::MalformedArchive));
    body[0] = 5;
    let sealed = seal(&key(), &compress(&body).unwrap()).unwrap();
    assert_eq!(unpack(&key(), &sealed), Err(PakError::MalformedArchive));
}

#[test]
fn archive_name_appends_the_suffix() {
    assert_eq!(archive_name(b"assets"), b"assets.pak".to_vec());
    assert_eq!(archive_name(b""), b".pak".to_vec());
    assert_eq!(archive_name(b"a/b.c"), b"a/b.c.pak".to_vec());
}
