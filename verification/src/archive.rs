//! The archive body: a file count followed by the files, each with its path and
//! content behind a length. All integers are little-endian and unsigned.
//!
//! ```text
//! u32 file_count
//! file_count times:
//!     u16 name_len,  name_len bytes of path
//!     u64 data_len,  data_len bytes of content
//! ```

use vstd::prelude::*;
use vstd::slice::slice_subrange;
use vstd::slice::slice_to_vec;
use crate::error::PakError;
use crate::le::get_le;
use crate::le::le_bytes;
use crate::le::le_value;
use crate::le::lemma_le_bytes_len;
use crate::le::lemma_le_bytes_of_value;
use crate::le::lemma_le_value_of_bytes;
use crate::le::lemma_pow256_values;
use crate::le::put_le;

verus! {

/// The longest path that the 16-bit length field can state.
pub const MAX_PATH_LEN: usize = 0xFFFF;

/// The most files that the 32-bit count field can state.
pub const MAX_FILE_COUNT: u64 = 0xFFFF_FFFF;

/// One collected file. The path is kept as raw bytes, exactly as the walk
/// produced it; the content may be empty.
#[derive(Debug, Clone, PartialEq, Eq)]
pub struct FileEntry {
    pub path: Vec<u8>,
    pub content: Vec<u8>,
}

/// What a `FileEntry` stands for.
pub struct EntryView {
    pub path: Seq<u8>,
    pub content: Seq<u8>,
}

impl View for FileEntry {
    type V = EntryView;

    open spec fn view(&self) -> EntryView {
        EntryView { path: self.path@, content: self.content@ }
    }
}

/// The files that a list of entries stands for, in order.
pub open spec fn views(entries: Seq<FileEntry>) -> Seq<EntryView> {
    entries.map_values(|e: FileEntry| e@)
}

/// Both lengths of the entry can be stated in their fields.
pub open spec fn entry_fits(e: EntryView) -> bool {
    e.path.len() <= MAX_PATH_LEN && e.content.len() <= u64::MAX
}

/// The count and every length of the archive can be stated in their fields.
pub open spec fn archive_fits(es: Seq<EntryView>) -> bool {
    es.len() <= MAX_FILE_COUNT && forall|i: int| 0 <= i < es.len() ==> entry_fits(#[trigger] es[i])
}

/// The failure of an archive that does not fit its fields: the count is looked
/// at first.
pub open spec fn unfit_error(es: Seq<EntryView>) -> PakError {
    if es.len() > MAX_FILE_COUNT {
        PakError::TooManyFiles
    } else {
        PakError::PathTooLong
    }
}

/// One file in the body: the length of its path, the path, the length of its
/// content, the content.
pub open spec fn entry_bytes(e: EntryView) -> Seq<u8> {
    le_bytes(e.path.len(), 2) + e.path + le_bytes(e.content.len(), 8) + e.content
}

/// The files in the body, one after the other.
pub open spec fn entries_bytes(es: Seq<EntryView>) -> Seq<u8>
    decreases es.len(),
{
    if es.len() == 0 {
        Seq::empty()
    } else {
        entry_bytes(es[0]) + entries_bytes(es.skip(1))
    }
}

/// The archive body of the given files: their count, then the files.
pub open spec fn archive_bytes(es: Seq<EntryView>) -> Seq<u8> {
    le_bytes(es.len(), 4) + entries_bytes(es)
}

/// The entry at the front of `b` and the number of bytes it takes, if `b` is
/// long enough for what its length fields announce.
pub open spec fn parse_entry(b: Seq<u8>) -> Option<(EntryView, int)> {
    if b.len() < 2 {
        None
    } else {
        let p = le_value(b.take(2)) as int;
        if b.len() < 10 + p {
            None
        } else {
            let c = le_value(b.subrange(2 + p, 10 + p)) as int;
            if b.len() < 10 + p + c {
                None
            } else {
                Some(
                    (
                        EntryView {
                            path: b.subrange(2, 2 + p),
                            content: b.subrange(10 + p, 10 + p + c),
                        },
                        10 + p + c,
                    ),
                )
            }
        }
    }
}

/// The `count` entries that make up the whole of `b`, if there are such.
pub open spec fn parse_entries(b: Seq<u8>, count: nat) -> Option<Seq<EntryView>>
    decreases count,
{
    if count == 0 {
        if b.len() == 0 {
            Some(Seq::empty())
        } else {
            None
        }
    } else {
        match parse_entry(b) {
            None => None,
            Some((e, used)) => match parse_entries(b.skip(used), (count - 1) as nat) {
                None => None,
                Some(es) => Some(seq![e] + es),
            },
        }
    }
}

/// The files that an archive body holds; `None` where the bytes end early, go
/// on after the last announced file, or are too few for a count.
pub open spec fn parse_archive(b: Seq<u8>) -> Option<Seq<EntryView>> {
    if b.len() < 4 {
        None
    } else {
        parse_entries(b.skip(4), le_value(b.take(4)))
    }
}

/// An entry that fits is found again at the front of whatever follows it.
proof fn lemma_parse_entry_of(e: EntryView, rest: Seq<u8>)
    requires
        entry_fits(e),
    ensures
        entry_bytes(e).len() == 10 + e.path.len() + e.content.len(),
        parse_entry(entry_bytes(e) + rest) == Some((e, entry_bytes(e).len() as int)),
{
    let b = entry_bytes(e) + rest;
    let p = e.path.len() as int;
    let c = e.content.len() as int;
    lemma_pow256_values();
    lemma_le_bytes_len(e.path.len(), 2);
    lemma_le_bytes_len(e.content.len(), 8);
    lemma_le_value_of_bytes(e.path.len(), 2);
    lemma_le_value_of_bytes(e.content.len(), 8);
    assert(b.take(2) =~= le_bytes(e.path.len(), 2));
    assert(b.subrange(2 + p, 10 + p) =~= le_bytes(e.content.len(), 8));
    assert(b.subrange(2, 2 + p) =~= e.path);
    assert(b.subrange(10 + p, 10 + p + c) =~= e.content);
}

/// What `parse_entry` finds fits, and its encoding is the bytes that it took.
proof fn lemma_parse_entry_sound(b: Seq<u8>)
    requires
        parse_entry(b) is Some,
    ensures
        ({
            let (e, used) = parse_entry(b)->0;
            &&& entry_fits(e)
            &&& 10 <= used <= b.len()
            &&& entry_bytes(e) == b.take(used)
        }),
{
    let (e, used) = parse_entry(b)->0;
    let p = le_value(b.take(2)) as int;
    let c = le_value(b.subrange(2 + p, 10 + p)) as int;
    lemma_pow256_values();
    lemma_le_bytes_of_value(b.take(2));
    lemma_le_bytes_of_value(b.subrange(2 + p, 10 + p));
    assert(entry_bytes(e) =~= b.take(used));
}

/// The encoding of entries that fit parses as `count` entries exactly when
/// `count` is their number, and then gives them back.
proof fn lemma_parse_entries_of(es: Seq<EntryView>, count: nat)
    requires
        forall|i: int| 0 <= i < es.len() ==> entry_fits(#[trigger] es[i]),
    ensures
        parse_entries(entries_bytes(es), count) == if count == es.len() {
            Some(es)
        } else {
            None
        },
    decreases es.len(),
{
    let b = entries_bytes(es);
    if es.len() == 0 {
        assert(es =~= Seq::empty());
    } else {
        let tail = es.skip(1);
        lemma_parse_entry_of(es[0], entries_bytes(tail));
        if count > 0 {
            let used = entry_bytes(es[0]).len() as int;
            assert(b.skip(used) =~= entries_bytes(tail));
            assert forall|i: int| 0 <= i < tail.len() implies entry_fits(#[trigger] tail[i]) by {
                assert(tail[i] == es[i + 1]);
            }
            lemma_parse_entries_of(tail, (count - 1) as nat);
            assert(seq![es[0]] + tail =~= es);
        }
    }
}

/// What `parse_entries` finds are `count` entries that fit, and their encoding
/// is the whole of the bytes.
proof fn lemma_parse_entries_sound(b: Seq<u8>, count: nat)
    requires
        parse_entries(b, count) is Some,
    ensures
        ({
            let es = parse_entries(b, count)->0;
            &&& es.len() == count
            &&& forall|i: int| 0 <= i < es.len() ==> entry_fits(#[trigger] es[i])
            &&& entries_bytes(es) == b
        }),
    decreases count,
{
    let es = parse_entries(b, count)->0;
    if count == 0 {
        assert(b =~= Seq::empty());
    } else {
        let (e, used) = parse_entry(b)->0;
        lemma_parse_entry_sound(b);
        lemma_parse_entries_sound(b.skip(used), (count - 1) as nat);
        let tail = parse_entries(b.skip(used), (count - 1) as nat)->0;
        assert(es == seq![e] + tail);
        assert(es.skip(1) =~= tail);
        assert(b.take(used) + b.skip(used) =~= b);
    }
}

/// Parsing undoes encoding: an archive whose count and lengths fit their fields
/// is read back from its body, entry for entry and in order.
pub proof fn lemma_archive_round_trip(es: Seq<EntryView>)
    requires
        archive_fits(es),
    ensures
        parse_archive(archive_bytes(es)) == Some(es),
{
    let b = archive_bytes(es);
    lemma_pow256_values();
    lemma_le_bytes_len(es.len(), 4);
    lemma_le_value_of_bytes(es.len(), 4);
    assert(b.take(4) =~= le_bytes(es.len(), 4));
    assert(b.skip(4) =~= entries_bytes(es));
    lemma_parse_entries_of(es, es.len());
}

/// Encoding undoes parsing: bytes that parse are the body of the archive that
/// they parse to, and that archive fits its fields.
pub proof fn lemma_parse_archive_sound(b: Seq<u8>)
    requires
        parse_archive(b) is Some,
    ensures
        archive_fits(parse_archive(b)->0),
        archive_bytes(parse_archive(b)->0) == b,
{
    let count = le_value(b.take(4));
    lemma_pow256_values();
    lemma_le_bytes_of_value(b.take(4));
    lemma_parse_entries_sound(b.skip(4), count);
    assert(b.take(4) + b.skip(4) =~= b);
}

/// No two archives share a body.
pub proof fn lemma_archive_bytes_injective(a: Seq<EntryView>, b: Seq<EntryView>)
    requires
        archive_fits(a),
        archive_fits(b),
        archive_bytes(a) == archive_bytes(b),
    ensures
        a == b,
{
    lemma_archive_round_trip(a);
    lemma_archive_round_trip(b);
}

/// The count is binding: a body whose count field differs from the number of
/// well-formed entries that follow it does not parse, whether the count
/// announces more entries than there are or fewer.
pub proof fn lemma_count_mismatch_rejected(es: Seq<EntryView>, count: nat)
    requires
        forall|i: int| 0 <= i < es.len() ==> entry_fits(#[trigger] es[i]),
        count <= MAX_FILE_COUNT,
        count != es.len(),
    ensures
        parse_archive(le_bytes(count, 4) + entries_bytes(es)) is None,
{
    let b = le_bytes(count, 4) + entries_bytes(es);
    lemma_pow256_values();
    lemma_le_bytes_len(count, 4);
    lemma_le_value_of_bytes(count, 4);
    assert(b.take(4) =~= le_bytes(count, 4));
    assert(b.skip(4) =~= entries_bytes(es));
    lemma_parse_entries_of(es, count);
}

impl FileEntry {
    /// The entry of the file at `path`, given what reading it gave: its content,
    /// or `None` where the file could not be read, which is `FileReadError` with
    /// the path.
    pub fn from_read(path: Vec<u8>, content: Option<Vec<u8>>) -> (r: Result<FileEntry, PakError>)
        ensures
            match content {
                Some(bytes) => r matches Ok(entry) && entry.path@ == path@ && entry.content@
                    == bytes@,
                None => r matches Err(PakError::FileReadError(p)) && p@ == path@,
            },
    {
        match content {
            Some(bytes) => Ok(FileEntry { path, content: bytes }),
            None => Err(PakError::FileReadError(path)),
        }
    }
}

/// Appends a copy of `src` to `out`.
fn put_bytes(out: &mut Vec<u8>, src: &[u8])
    ensures
        final(out)@ == old(out)@ + src@,
{
    out.extend_from_slice(src);
    assert(out@ =~= old(out)@ + src@);
}

/// Encodes the files as an archive body: the count, then every file in the
/// order given; the body parses back to the same files. Fails with
/// `TooManyFiles` where the count does not fit its field, else with
/// `PathTooLong` where some path does not fit its length field.
pub fn serialize(entries: &[FileEntry]) -> (r: Result<Vec<u8>, PakError>)
    ensures
        match r {
            Ok(bytes) => {
                &&& archive_fits(views(entries@))
                &&& bytes@ == archive_bytes(views(entries@))
                &&& parse_archive(bytes@) == Some(views(entries@))
            },
            Err(e) => !archive_fits(views(entries@)) && e == unfit_error(views(entries@)),
        },
{
    let ghost vs = views(entries@);
    let n = entries.len();
    if n as u64 > MAX_FILE_COUNT {
        return Err(PakError::TooManyFiles);
    }
    let mut out: Vec<u8> = Vec::new();
    put_le(&mut out, n as u64, 4);
    let mut i: usize = 0;
    proof {
        assert(vs.skip(0) =~= vs);
        assert(out@ =~= le_bytes(vs.len(), 4));
    }
    while i < n
        invariant
            i <= n == entries.len(),
            n <= MAX_FILE_COUNT,
            vs == views(entries@),
            out@ + entries_bytes(vs.skip(i as int)) == archive_bytes(vs),
            forall|j: int| 0 <= j < i ==> entry_fits(#[trigger] vs[j]),
        decreases n - i,
    {
        let entry = &entries[i];
        if entry.path.len() > MAX_PATH_LEN {
            assert(!entry_fits(vs[i as int]));
            return Err(PakError::PathTooLong);
        }
        let ghost before = out@;
        let ghost rest = vs.skip(i as int);
        put_le(&mut out, entry.path.len() as u64, 2);
        put_bytes(&mut out, entry.path.as_slice());
        put_le(&mut out, entry.content.len() as u64, 8);
        put_bytes(&mut out, entry.content.as_slice());
        proof {
            lemma_pow256_values();
            assert(rest[0] == vs[i as int]);
            assert(rest.skip(1) =~= vs.skip(i + 1));
            assert(out@ =~= before + entry_bytes(vs[i as int]));
            assert(out@ + entries_bytes(vs.skip(i + 1)) =~= before + entries_bytes(rest));
        }
        i = i + 1;
    }
    proof {
        assert(out@ + Seq::<u8>::empty() =~= out@);
        lemma_archive_round_trip(vs);
    }
    Ok(out)
}

/// `front` followed by what `back` holds, if it holds anything.
spec fn join(front: Seq<EntryView>, back: Option<Seq<EntryView>>) -> Option<Seq<EntryView>> {
    match back {
        Some(es) => Some(front + es),
        None => None,
    }
}

/// The files of an archive body, or `None` where `parse_archive` finds none.
fn parse(bytes: &[u8]) -> (r: Option<Vec<FileEntry>>)
    ensures
        match r {
            Some(entries) => parse_archive(bytes@) == Some(views(entries@)),
            None => parse_archive(bytes@) is None,
        },
{
    let len = bytes.len();
    if len < 4 {
        return None;
    }
    let count = get_le(bytes, 0, 4);
    let ghost body = bytes@.skip(4);
    let mut entries: Vec<FileEntry> = Vec::new();
    let mut pos: usize = 4;
    proof {
        assert(bytes@.subrange(0, 4) =~= bytes@.take(4));
        assert(views(entries@) =~= Seq::empty());
        assert(join(views(entries@), parse_entries(body, count as nat)) =~= parse_entries(
            body,
            count as nat,
        ));
    }
    while (entries.len() as u64) < count
        invariant
            len == bytes.len(),
            4 <= pos <= len,
            entries.len() <= count == le_value(bytes@.take(4)),
            body == bytes@.skip(4),
            parse_entries(body, count as nat) == join(
                views(entries@),
                parse_entries(bytes@.skip(pos as int), (count - entries.len()) as nat),
            ),
        decreases count - entries.len(),
    {
        let ghost b = bytes@.skip(pos as int);
        let ghost left = (count - entries.len()) as nat;
        if len - pos < 2 {
            return None;
        }
        let p = get_le(bytes, pos, 2);
        proof {
            lemma_pow256_values();
            assert(bytes@.subrange(pos as int, pos + 2) =~= b.take(2));
            lemma_le_bytes_of_value(b.take(2));
        }
        if ((len - pos) as u64) < 10 + p {
            return None;
        }
        let path_at = pos + 2;
        let content_len_at = path_at + p as usize;
        let content_at = content_len_at + 8;
        let c = get_le(bytes, content_len_at, 8);
        proof {
            assert(bytes@.subrange(content_len_at as int, content_len_at + 8) =~= b.subrange(
                2 + p,
                10 + p,
            ));
        }
        if ((len - content_at) as u64) < c {
            return None;
        }
        let end = content_at + c as usize;
        let entry = FileEntry {
            path: slice_to_vec(slice_subrange(bytes, path_at, content_len_at)),
            content: slice_to_vec(slice_subrange(bytes, content_at, end)),
        };
        proof {
            let (e, used) = parse_entry(b)->0;
            assert(entry.path@ =~= b.subrange(2, 2 + p));
            assert(entry.content@ =~= b.subrange(10 + p, 10 + p + c));
            assert(entry@ == e);
            assert(b.skip(used) =~= bytes@.skip(end as int));
            let after = parse_entries(bytes@.skip(end as int), (left - 1) as nat);
            assert(views(entries@.push(entry)) =~= views(entries@) + seq![e]);
            if after is Some {
                assert((views(entries@) + seq![e]) + after->0 =~= views(entries@) + (seq![e]
                    + after->0));
            }
        }
        entries.push(entry);
        pos = end;
    }
    if pos != len {
        return None;
    }
    proof {
        assert(bytes@.skip(pos as int) =~= Seq::empty());
        assert(views(entries@) + Seq::<EntryView>::empty() =~= views(entries@));
    }
    Some(entries)
}

/// Reads an archive body back into its files. Succeeds exactly on the bodies
/// that `serialize` can produce, and then returns the files that were encoded,
/// in their order. Bytes that end early, that go on after the last announced
/// file, or whose count is not the number of entries that follow, are refused
/// with `MalformedArchive`.
pub fn deserialize(bytes: &[u8]) -> (r: Result<Vec<FileEntry>, PakError>)
    ensures
        match r {
            Ok(entries) => {
                &&& parse_archive(bytes@) == Some(views(entries@))
                &&& archive_fits(views(entries@))
                &&& archive_bytes(views(entries@)) == bytes@
            },
            Err(e) => {
                &&& e == PakError::MalformedArchive
                &&& parse_archive(bytes@) is None
                &&& forall|es: Seq<EntryView>| archive_fits(es) ==> archive_bytes(es) != bytes@
            },
        },
{
    match parse(bytes) {
        Some(entries) => {
            proof {
                lemma_parse_archive_sound(bytes@);
            }
            Ok(entries)
        },
        None => {
            assert forall|es: Seq<EntryView>| archive_fits(es) implies archive_bytes(es)
                != bytes@ by {
                lemma_archive_round_trip(es);
            }
            Err(PakError::MalformedArchive)
        },
    }
}

} // verus!
