use lightbyte::archive::deserialize;
use lightbyte::archive::serialize;
use lightbyte::archive::FileEntry;
use lightbyte::error::PakError;
use lightbyte::le::get_le;
use lightbyte::le::put_le;

fn entry(path: &[u8], content: &[u8]) -> FileEntry {
    FileEntry { path: path.to_vec(), content: content.to_vec() }
}

#[test]
fn put_le_writes_least_significant_byte_first() {
    let mut out = vec![0xAA];
    put_le(&mut out, 0x0102, 2);
    put_le(&mut out, 0x0A0B0C0D, 4);
    put_le(&mut out, 0x1122334455667788, 8);
    assert_eq!(
        out,
        vec![
            0xAA, 0x02, 0x01, 0x0D, 0x0C, 0x0B, 0x0A, 0x88, 0x77, 0x66, 0x55, 0x44, 0x33, 0x22,
            0x11
        ]
    );
}

#[test]
fn put_le_of_width_zero_writes_nothing() {
    let mut out = vec![1, 2, 3];
    put_le(&mut out, 77, 0);
    assert_eq!(out, vec![1, 2, 3]);
}

#[test]
fn put_le_drops_high_bytes_that_do_not_fit() {
    let mut out = Vec::new();
    put_le(&mut out, 0x1_0203, 2);
    assert_eq!(out, vec![0x03, 0x02]);
}

#[test]
fn get_le_reads_what_put_le_wrote() {
    let bytes = [0xFF, 0x02, 0x01, 0x88, 0x77, 0x66, 0x55, 0x44, 0x33, 0x22, 0x11, 0xFF];
    assert_eq!(get_le(&bytes, 1, 2), 0x0102);
    assert_eq!(get_le(&bytes, 3, 8), 0x1122334455667788);
    assert_eq!(get_le(&bytes, 0, 1), 0xFF);
    assert_eq!(get_le(&bytes, 5, 0), 0);
    assert_eq!(get_le(&[0xFF; 8], 0, 8), u64::MAX);
}

#[test]
fn empty_archive_is_a_zero_count() {
    assert_eq!(serialize(&[]), Ok(vec![0, 0, 0, 0]));
    assert_eq!(deserialize(&[0, 0, 0, 0]), Ok(vec![]));
}

#[test]
fn one_entry_has_the_documented_layout() {
    let body = serialize(&[entry(b"a/b.txt", b"hello")]).unwrap();
    let mut expected = vec![1, 0, 0, 0];
    expected.extend_from_slice(&[7, 0]);
    expected.extend_from_slice(b"a/b.txt");
    expected.extend_from_slice(&[5, 0, 0, 0, 0, 0, 0, 0]);
    expected.extend_from_slice(b"hello");
    assert_eq!(body, expected);
}

#[test]
fn entries_are_written_in_the_order_given() {
    let body = serialize(&[entry(b"z", b""), entry(b"a", &[0xFF, 0x00])]).unwrap();
    assert_eq!(
        body,
        vec![
            2, 0, 0, 0, // file_count
            1, 0, b'z', 0, 0, 0, 0, 0, 0, 0, 0, // "z", empty
            1, 0, b'a', 2, 0, 0, 0, 0, 0, 0, 0, 0xFF, 0x00, // "a", two bytes
        ]
    );
}

#[test]
fn lengths_above_one_byte_are_little_endian() {
    let path = vec![b'p'; 0x0123];
    let content = vec![0x5A; 0x01_0002];
    let body = serialize(&[FileEntry { path: path.clone(), content: content.clone() }]).unwrap();
    assert_eq!(&body[..4], &[1, 0, 0, 0]);
    assert_eq!(&body[4..6], &[0x23, 0x01]);
    assert_eq!(&body[6..6 + 0x0123], &path[..]);
    assert_eq!(&body[6 + 0x0123..14 + 0x0123], &[0x02, 0x00, 0x01, 0, 0, 0, 0, 0]);
    assert_eq!(&body[14 + 0x0123..], &content[..]);
}

#[test]
fn path_of_65535_bytes_is_the_longest() {
    let longest = entry(&vec![b'x'; 65535], b"c");
    let body = serialize(&[longest.clone()]).unwrap();
    assert_eq!(&body[4..6], &[0xFF, 0xFF]);
    assert_eq!(deserialize(&body), Ok(vec![longest]));
}

#[test]
fn path_of_65536_bytes_is_too_long() {
    let too_long = entry(&vec![b'x'; 65536], b"c");
    assert_eq!(serialize(&[too_long]), Err(PakError::PathTooLong));
}

#[test]
fn one_long_path_fails_the_whole_archive() {
    let entries = vec![entry(b"ok", b"1"), entry(&vec![b'x'; 70000], b""), entry(b"ok2", b"2")];
    assert_eq!(serialize(&entries), Err(PakError::PathTooLong));
}

#[test]
fn deserialize_undoes_serialize() {
    let entries = vec![
        entry(b"dir/empty", b""),
        entry(b"dir/binary", &[0, 1, 2, 0xFF, 0xFE, 0x0A, 0x00]),
        entry(b"", b"file with an empty path"),
        entry(&[0xC3, 0x28, 0xFF], &(0..=255u8).collect::<Vec<u8>>()),
        entry(b"dir/empty", b"same path again"),
    ];
    let body = serialize(&entries).unwrap();
    assert_eq!(deserialize(&body), Ok(entries));
}

#[test]
fn serialize_undoes_deserialize() {
    let body = vec![
        2, 0, 0, 0, 1, 0, b'z', 0, 0, 0, 0, 0, 0, 0, 0, 1, 0, b'a', 2, 0, 0, 0, 0, 0, 0, 0, 0xFF,
        0x00,
    ];
    let entries = deserialize(&body).unwrap();
    assert_eq!(entries, vec![entry(b"z", b""), entry(b"a", &[0xFF, 0x00])]);
    assert_eq!(serialize(&entries), Ok(body));
}

fn three_entries() -> Vec<FileEntry> {
    vec![entry(b"one", b"1"), entry(b"two", b"22"), entry(b"three", b"333")]
}

#[test]
fn count_of_three_with_three_entries_is_read() {
    let body = serialize(&three_entries()).unwrap();
    assert_eq!(&body[..4], &[3, 0, 0, 0]);
    assert_eq!(deserialize(&body), Ok(three_entries()));
}

#[test]
fn count_larger_than_the_entries_is_malformed() {
    let mut body = serialize(&three_entries()[..2]).unwrap();
    body[0] = 3;
    assert_eq!(deserialize(&body), Err(PakError::MalformedArchive));
}

#[test]
fn count_smaller_than_the_entries_is_malformed() {
    let mut body = serialize(&three_entries()).unwrap();
    body[0] = 2;
    assert_eq!(deserialize(&body), Err(PakError::MalformedArchive));
    body[0] = 0;
    assert_eq!(deserialize(&body), Err(PakError::MalformedArchive));
}

#[test]
fn huge_count_is_malformed() {
    assert_eq!(deserialize(&[0xFF, 0xFF, 0xFF, 0xFF]), Err(PakError::MalformedArchive));
}

#[test]
fn fewer_than_four_bytes_are_malformed() {
    assert_eq!(deserialize(&[]), Err(PakError::MalformedArchive));
    assert_eq!(deserialize(&[0, 0, 0]), Err(PakError::MalformedArchive));
}

#[test]
fn every_truncation_is_malformed() {
    let body = serialize(&three_entries()).unwrap();
    for cut in 0..body.len() {
        assert_eq!(deserialize(&body[..cut]), Err(PakError::MalformedArchive), "cut at {}", cut);
    }
}

#[test]
fn bytes_after_the_last_entry_are_malformed() {
    let mut body = serialize(&three_entries()).unwrap();
    body.push(0);
    assert_eq!(deserialize(&body), Err(PakError::MalformedArchive));
}

#[test]
fn data_len_beyond_the_end_is_malformed() {
    let mut body = serialize(&[entry(b"f", b"abc")]).unwrap();
    // data_len stands at offset 4 + 2 + 1
    body[7] = 4;
    assert_eq!(deserialize(&body), Err(PakError::MalformedArchive));
    body[7] = 3;
    body[14] = 0x80;
    assert_eq!(deserialize(&body), Err(PakError::MalformedArchive));
}

#[test]
fn name_len_beyond_the_end_is_malformed() {
    let mut body = serialize(&[entry(b"f", b"abc")]).unwrap();
    body[4] = 0xFF;
    body[5] = 0xFF;
    assert_eq!(deserialize(&body), Err(PakError::MalformedArchive));
}

#[test]
fn from_read_keeps_path_and_content() {
    assert_eq!(
        FileEntry::from_read(b"a/b".to_vec(), Some(vec![1, 2, 3])),
        Ok(entry(b"a/b", &[1, 2, 3]))
    );
    assert_eq!(FileEntry::from_read(b"e".to_vec(), Some(vec![])), Ok(entry(b"e", b"")));
}

#[test]
fn from_read_names_the_file_that_could_not_be_read() {
    assert_eq!(
        FileEntry::from_read(b"a/gone".to_vec(), None),
        Err(PakError::FileReadError(b"a/gone".to_vec()))
    );
}
