//! The key: 32 secret bytes, kept in a text file as 32 lines with one decimal
//! number from 0 to 255 each.

use vstd::prelude::*;
use crate::entropy::os_random;
use crate::error::PakError;

verus! {

/// The number of bytes in a key.
pub const KEY_LEN: usize = 32;

/// The byte that ends a line.
pub const NEWLINE: u8 = 0x0A;

/// The byte that may stand before the newline at the end of a line.
pub const CARRIAGE_RETURN: u8 = 0x0D;

/// Blanks that may stand around the number of a line: space, tab, line feed,
/// vertical tab, form feed and carriage return.
pub open spec fn is_space(b: u8) -> bool {
    b == 0x20 || (0x09 <= b <= 0x0D)
}

/// The ASCII digits.
pub open spec fn is_digit(b: u8) -> bool {
    0x30 <= b <= 0x39
}

/// The length of the first line of `text`, without the newline that ends it.
pub open spec fn line_len(text: Seq<u8>) -> nat
    decreases text.len(),
{
    if text.len() == 0 || text[0] == NEWLINE {
        0
    } else {
        1 + line_len(text.skip(1))
    }
}

/// `s` without the blanks at its front.
pub open spec fn trim_start(s: Seq<u8>) -> Seq<u8>
    decreases s.len(),
{
    if s.len() > 0 && is_space(s[0]) {
        trim_start(s.skip(1))
    } else {
        s
    }
}

/// `s` without the blanks at its end.
pub open spec fn trim_end(s: Seq<u8>) -> Seq<u8>
    decreases s.len(),
{
    if s.len() > 0 && is_space(s.last()) {
        trim_end(s.drop_last())
    } else {
        s
    }
}

/// `s` without the blanks at either end.
pub open spec fn trim(s: Seq<u8>) -> Seq<u8> {
    trim_end(trim_start(s))
}

/// Every byte of `s` is a digit.
pub open spec fn all_digits(s: Seq<u8>) -> bool {
    forall|i: int| 0 <= i < s.len() ==> is_digit(#[trigger] s[i])
}

/// The number that a string of digits denotes in base ten.
pub open spec fn digits_value(s: Seq<u8>) -> nat
    decreases s.len(),
{
    if s.len() == 0 {
        0
    } else {
        digits_value(s.drop_last()) * 10 + (s.last() - 0x30) as nat
    }
}

/// The byte that `digits` denotes: one or more digits whose value is at most
/// 255. Leading zeros are allowed.
pub open spec fn unsigned(digits: Seq<u8>) -> Option<u8> {
    if digits.len() > 0 && all_digits(digits) && digits_value(digits) <= 255 {
        Some(digits_value(digits) as u8)
    } else {
        None
    }
}

/// The byte that `word` denotes: an optional `+`, then digits as for `unsigned`.
pub open spec fn number(word: Seq<u8>) -> Option<u8> {
    if word.len() > 0 && word[0] == 0x2B {
        unsigned(word.skip(1))
    } else {
        unsigned(word)
    }
}

/// What a line holds: the bytes before its newline, without the carriage return
/// that may end them. A last line that no newline ends keeps all its bytes.
pub open spec fn line_content(line: Seq<u8>, ended: bool) -> Seq<u8> {
    if ended && line.len() > 0 && line.last() == CARRIAGE_RETURN {
        line.drop_last()
    } else {
        line
    }
}

/// The numbers of the lines of `text`, in order. A line that holds nothing is
/// passed over. Every other line must be a number, the blanks around it aside;
/// `None` where one is not, as a line of blanks alone is not.
pub open spec fn decode_lines(text: Seq<u8>) -> Option<Seq<u8>>
    decreases text.len(),
{
    let n = line_len(text);
    let ended = n < text.len();
    let line = line_content(text.take(n as int), ended);
    let rest = if ended {
        decode_lines(text.skip(n as int + 1))
    } else {
        Some(Seq::empty())
    };
    if line.len() == 0 {
        rest
    } else {
        match (number(trim(line)), rest) {
            (Some(v), Some(vs)) => Some(seq![v] + vs),
            _ => None,
        }
    }
}

/// The key that a key file holds. A line that is not a number makes the file
/// ill-formed, whatever the number of lines; a well-formed file must hold 32
/// numbers.
pub open spec fn parse_key_text(text: Seq<u8>) -> Result<Seq<u8>, PakError> {
    match decode_lines(text) {
        None => Err(PakError::KeyFormatError),
        Some(values) => if values.len() == KEY_LEN {
            Ok(values)
        } else {
            Err(PakError::KeyLengthError)
        },
    }
}

/// The digits of `v` in base ten, without leading zeros.
pub open spec fn decimal(v: u8) -> Seq<u8> {
    if v < 10 {
        seq![(0x30 + v) as u8]
    } else if v < 100 {
        seq![(0x30 + v / 10) as u8, (0x30 + v % 10) as u8]
    } else {
        seq![(0x30 + v / 100) as u8, (0x30 + (v / 10) % 10) as u8, (0x30 + v % 10) as u8]
    }
}

/// The text that holds `values`: each on a line of its own, every line ended by
/// a newline.
pub open spec fn key_text(values: Seq<u8>) -> Seq<u8>
    decreases values.len(),
{
    if values.len() == 0 {
        Seq::empty()
    } else {
        decimal(values[0]) + seq![NEWLINE] + key_text(values.skip(1))
    }
}

/// A line ends at the first newline, or where the text ends.
proof fn lemma_line_len(text: Seq<u8>, n: int)
    requires
        0 <= n <= text.len(),
        forall|i: int| 0 <= i < n ==> text[i] != NEWLINE,
        n == text.len() || text[n] == NEWLINE,
    ensures
        line_len(text) == n,
    decreases n,
{
    if n > 0 {
        lemma_line_len(text.skip(1), n - 1);
    }
}

/// Blanks are dropped from the front up to the first byte that is none.
proof fn lemma_trim_start(s: Seq<u8>, a: int)
    requires
        0 <= a <= s.len(),
        forall|i: int| 0 <= i < a ==> is_space(s[i]),
        a == s.len() || !is_space(s[a]),
    ensures
        trim_start(s) == s.skip(a),
    decreases a,
{
    if a > 0 {
        lemma_trim_start(s.skip(1), a - 1);
        assert(s.skip(1).skip(a - 1) =~= s.skip(a));
    } else {
        assert(s.skip(0) =~= s);
    }
}

/// Blanks are dropped from the end down to the last byte that is none.
proof fn lemma_trim_end(s: Seq<u8>, z: int)
    requires
        0 <= z <= s.len(),
        forall|i: int| z <= i < s.len() ==> is_space(s[i]),
        z == 0 || !is_space(s[z - 1]),
    ensures
        trim_end(s) == s.take(z),
    decreases s.len() - z,
{
    if z < s.len() {
        lemma_trim_end(s.drop_last(), z);
        assert(s.drop_last().take(z) =~= s.take(z));
    } else {
        assert(s.take(z) =~= s);
    }
}

/// What is left of a line after trimming is the stretch between its first and
/// its last byte that is no blank.
proof fn lemma_trim(s: Seq<u8>, a: int, z: int)
    requires
        0 <= a <= z <= s.len(),
        forall|i: int| 0 <= i < a ==> is_space(s[i]),
        forall|i: int| z <= i < s.len() ==> is_space(s[i]),
        a < z ==> !is_space(s[a]) && !is_space(s[z - 1]),
    ensures
        trim(s) == s.subrange(a, z),
{
    if a < z {
        lemma_trim_start(s, a);
        lemma_trim_end(s.skip(a), z - a);
        assert(s.skip(a).take(z - a) =~= s.subrange(a, z));
    } else {
        lemma_trim_start(s, s.len() as int);
        assert(s.skip(s.len() as int) =~= Seq::<u8>::empty());
        assert(s.subrange(a, z) =~= Seq::<u8>::empty());
    }
}

/// The digits read so far never denote more than all of them.
proof fn lemma_digits_prefix(s: Seq<u8>, k: int)
    requires
        0 <= k <= s.len(),
    ensures
        digits_value(s.take(k)) <= digits_value(s),
    decreases s.len() - k,
{
    if k < s.len() {
        lemma_digits_prefix(s.drop_last(), k);
        assert(s.drop_last().take(k) =~= s.take(k));
    } else {
        assert(s.take(k) =~= s);
    }
}

/// The byte that the stretch of `text` from `from` to `to` denotes, if it is a
/// number.
fn parse_number(text: &[u8], from: usize, to: usize) -> (r: Option<u8>)
    requires
        from < to <= text.len(),
    ensures
        r == number(text@.subrange(from as int, to as int)),
{
    let ghost word = text@.subrange(from as int, to as int);
    let start = if text[from] == 0x2B {
        from + 1
    } else {
        from
    };
    let ghost digits = text@.subrange(start as int, to as int);
    proof {
        assert(word[0] == text[from as int]);
        if start == from {
            assert(digits =~= word);
        } else {
            assert(digits =~= word.skip(1));
        }
    }
    if start == to {
        return None;
    }
    let mut value: u32 = 0;
    let mut i: usize = start;
    while i < to
        invariant
            start <= i <= to <= text.len(),
            digits == text@.subrange(start as int, to as int),
            number(text@.subrange(from as int, to as int)) == unsigned(digits),
            all_digits(digits.take(i - start)),
            value == digits_value(digits.take(i - start)),
            value <= 255,
        decreases to - i,
    {
        let b = text[i];
        let ghost seen = digits.take(i - start);
        let ghost more = digits.take(i - start + 1);
        proof {
            assert(digits[i - start] == b);
            assert(more.drop_last() =~= seen);
            assert(more.last() == b);
        }
        if b < 0x30 || b > 0x39 {
            return None;
        }
        value = value * 10 + (b - 0x30) as u32;
        if value > 255 {
            proof {
                lemma_digits_prefix(digits, i - start + 1);
            }
            return None;
        }
        proof {
            assert forall|j: int| 0 <= j < more.len() implies is_digit(#[trigger] more[j]) by {
                if j < seen.len() {
                    assert(more[j] == seen[j]);
                }
            }
        }
        i = i + 1;
    }
    proof {
        assert(digits.take(to - start) =~= digits);
    }
    Some(value as u8)
}

/// `front` followed by what `back` holds, if it holds anything.
spec fn prepend(front: Seq<u8>, back: Option<Seq<u8>>) -> Option<Seq<u8>> {
    match back {
        Some(vs) => Some(front + vs),
        None => None,
    }
}

fn byte_is_space(b: u8) -> (r: bool)
    ensures
        r == is_space(b),
{
    b == 0x20 || (0x09 <= b && b <= 0x0D)
}

/// The numbers of the lines of `text`, or `None` where a line is no number.
fn decode(text: &[u8]) -> (r: Option<Vec<u8>>)
    ensures
        match r {
            Some(values) => decode_lines(text@) == Some(values@),
            None => decode_lines(text@) is None,
        },
{
    let len = text.len();
    let mut values: Vec<u8> = Vec::new();
    let mut pos: usize = 0;
    proof {
        assert(text@.skip(0) =~= text@);
        assert(prepend(values@, decode_lines(text@)) =~= decode_lines(text@));
    }
    loop
        invariant
            pos <= len == text.len(),
            decode_lines(text@) == prepend(values@, decode_lines(text@.skip(pos as int))),
        decreases len - pos,
    {
        let ghost tail = text@.skip(pos as int);
        let mut end: usize = pos;
        while end < len && text[end] != NEWLINE
            invariant
                pos <= end <= len == text.len(),
                forall|k: int| pos <= k < end ==> text@[k] != NEWLINE,
            decreases len - end,
        {
            end = end + 1;
        }
        let ghost line = text@.subrange(pos as int, end as int);
        let ended = end < len;
        let stop = if ended && end > pos && text[end - 1] == CARRIAGE_RETURN {
            end - 1
        } else {
            end
        };
        let ghost content = text@.subrange(pos as int, stop as int);
        let ghost rest = if ended {
            decode_lines(text@.skip(end + 1))
        } else {
            Some(Seq::empty())
        };
        proof {
            lemma_line_len(tail, end - pos);
            assert(tail.take(end - pos) =~= line);
            assert(content =~= line_content(line, ended));
            if ended {
                assert(tail.skip(end - pos + 1) =~= text@.skip(end + 1));
            }
        }
        if stop > pos {
            let mut first: usize = pos;
            while first < stop && byte_is_space(text[first])
                invariant
                    pos <= first <= stop <= len == text.len(),
                    forall|k: int| pos <= k < first ==> is_space(text@[k]),
                decreases stop - first,
            {
                first = first + 1;
            }
            let mut last: usize = stop;
            while last > first && byte_is_space(text[last - 1])
                invariant
                    first <= last <= stop <= len == text.len(),
                    forall|k: int| last <= k < stop ==> is_space(text@[k]),
                decreases last,
            {
                last = last - 1;
            }
            proof {
                lemma_trim(content, first - pos, last - pos);
                assert(content.subrange(first - pos, last - pos) =~= text@.subrange(
                    first as int,
                    last as int,
                ));
            }
            if first == last {
                return None;
            }
            match parse_number(text, first, last) {
                None => {
                    return None;
                },
                Some(v) => {
                    proof {
                        if rest is Some {
                            assert(values@.push(v) + rest->0 =~= values@ + (seq![v] + rest->0));
                        }
                    }
                    values.push(v);
                },
            }
        }
        if end == len {
            proof {
                assert(values@ + Seq::<u8>::empty() =~= values@);
            }
            return Some(values);
        }
        pos = end + 1;
    }
}

/// A symmetric key. It is made by `generate` or read by `load`, and never
/// changed afterwards.
pub struct Key {
    bytes: [u8; 32],
}

impl View for Key {
    type V = Seq<u8>;

    closed spec fn view(&self) -> Seq<u8> {
        self.bytes@
    }
}

impl Key {
    /// A key has 32 bytes.
    pub proof fn lemma_len(&self)
        ensures
            self@.len() == KEY_LEN,
    {
    }

    /// The key that holds the given bytes.
    pub fn from_bytes(bytes: [u8; 32]) -> (key: Key)
        ensures
            key@ == bytes@,
    {
        Key { bytes }
    }

    /// The bytes of the key.
    pub fn as_bytes(&self) -> (bytes: &[u8; 32])
        ensures
            bytes@ == self@,
    {
        &self.bytes
    }

    /// Reads a key from the text of a key file. A line that holds nothing is
    /// passed over; every other line must be a decimal number from 0 to 255,
    /// or the text is refused with `KeyFormatError`; there must be 32 of them,
    /// or it is refused with `KeyLengthError`.
    pub fn parse(text: &[u8]) -> (r: Result<Key, PakError>)
        ensures
            match r {
                Ok(key) => parse_key_text(text@) == Ok::<Seq<u8>, PakError>(key@),
                Err(e) => parse_key_text(text@) == Err::<Seq<u8>, PakError>(e),
            },
    {
        match decode(text) {
            None => Err(PakError::KeyFormatError),
            Some(values) => {
                if values.len() != KEY_LEN {
                    return Err(PakError::KeyLengthError);
                }
                let mut bytes = [0u8; 32];
                let mut i: usize = 0;
                while i < KEY_LEN
                    invariant
                        i <= KEY_LEN == values.len(),
                        forall|j: int| 0 <= j < i ==> bytes@[j] == values@[j],
                    decreases KEY_LEN - i,
                {
                    bytes[i] = values[i];
                    i = i + 1;
                }
                assert(bytes@ =~= values@);
                Ok(Key { bytes })
            },
        }
    }

    /// The text of the key file that holds this key: one decimal number per
    /// line, without leading zeros, every line ended by a newline.
    pub fn to_text(&self) -> (text: Vec<u8>)
        ensures
            text@ == key_text(self@),
    {
        let mut text: Vec<u8> = Vec::new();
        let mut i: usize = 0;
        proof {
            assert(self@.skip(0) =~= self@);
            assert(text@ + key_text(self@) =~= key_text(self@));
        }
        while i < KEY_LEN
            invariant
                i <= KEY_LEN,
                text@ + key_text(self@.skip(i as int)) == key_text(self@),
            decreases KEY_LEN - i,
        {
            let v = self.bytes[i];
            let ghost before = text@;
            let ghost tail = self@.skip(i as int);
            if v >= 100 {
                text.push(0x30 + v / 100);
            }
            if v >= 10 {
                text.push(0x30 + (v / 10) % 10);
            }
            text.push(0x30 + v % 10);
            text.push(NEWLINE);
            proof {
                assert(tail[0] == v);
                assert(tail.skip(1) =~= self@.skip(i + 1));
                assert(text@ =~= before + (decimal(v) + seq![NEWLINE]));
                assert(text@ + key_text(self@.skip(i + 1)) =~= before + key_text(tail));
            }
            i = i + 1;
        }
        assert(text@ + Seq::<u8>::empty() =~= text@);
        text
    }
}

/// What `load` makes of the key file: `None` stands for a file that is not
/// there.
pub open spec fn loaded(file: Option<Seq<u8>>) -> Result<Seq<u8>, PakError> {
    match file {
        None => Err(PakError::KeyFileMissing),
        Some(text) => parse_key_text(text),
    }
}

/// Loads the key from what was read of the key file, `None` where there is no
/// such file. Fails with `KeyFileMissing`, or as `Key::parse` does.
pub fn load(file: Option<&[u8]>) -> (r: Result<Key, PakError>)
    ensures
        match r {
            Ok(key) => Ok::<Seq<u8>, PakError>(key@),
            Err(e) => Err::<Seq<u8>, PakError>(e),
        } == loaded(
            match file {
                Some(text) => Some(text@),
                None => None,
            },
        ),
{
    match file {
        None => Err(PakError::KeyFileMissing),
        Some(text) => Key::parse(text),
    }
}

/// The key made of 32 bytes that the random source gave, or `RandomSourceError`
/// where it gave none.
pub fn key_from_drawn(drawn: Option<[u8; 32]>) -> (r: Result<Key, PakError>)
    ensures
        match drawn {
            Some(bytes) => r matches Ok(key) && key@ == bytes@,
            None => r matches Err(e) && e == PakError::RandomSourceError,
        },
{
    match drawn {
        Some(bytes) => Ok(Key::from_bytes(bytes)),
        None => Err(PakError::RandomSourceError),
    }
}

/// Makes a new key of 32 bytes drawn from the operating system's random source.
/// Fails with `RandomSourceError` where the source is unavailable, and in no
/// other way.
pub fn generate() -> (r: Result<Key, PakError>)
    ensures
        r matches Err(e) ==> e == PakError::RandomSourceError,
{
    match os_random::<32>() {
        Ok(bytes) => key_from_drawn(Some(bytes)),
        Err(_) => key_from_drawn(None),
    }
}

/// The digits of a byte are digits, at most three, and denote the byte.
proof fn lemma_decimal(v: u8)
    ensures
        1 <= decimal(v).len() <= 3,
        all_digits(decimal(v)),
        digits_value(decimal(v)) == v,
{
    let d = decimal(v);
    reveal_with_fuel(digits_value, 4);
    if v < 10 {
        assert(d.drop_last() =~= Seq::<u8>::empty());
    } else if v < 100 {
        let d1 = d.drop_last();
        assert(d1 =~= seq![(0x30 + v / 10) as u8]);
        assert(d1.drop_last() =~= Seq::<u8>::empty());
    } else {
        let d2 = d.drop_last();
        assert(d2 =~= seq![(0x30 + v / 100) as u8, (0x30 + (v / 10) % 10) as u8]);
        let d1 = d2.drop_last();
        assert(d1 =~= seq![(0x30 + v / 100) as u8]);
        assert(d1.drop_last() =~= Seq::<u8>::empty());
    }
}

/// No line is longer than the place of any newline.
proof fn lemma_line_len_le(text: Seq<u8>, k: int)
    requires
        0 <= k < text.len(),
        text[k] == NEWLINE,
    ensures
        line_len(text) <= k,
    decreases k,
{
    if k > 0 && text[0] != NEWLINE {
        lemma_line_len_le(text.skip(1), k - 1);
    }
}

/// Reading undoes writing: the text that holds some numbers, each on a line of
/// its own, is read back as those numbers in their order. So a file of 32 such
/// lines gives exactly its 32 bytes, and one of more or fewer lines is refused
/// for its length.
pub proof fn lemma_key_text_parses(values: Seq<u8>)
    ensures
        decode_lines(key_text(values)) == Some(values),
        parse_key_text(key_text(values)) == if values.len() == KEY_LEN {
            Ok::<Seq<u8>, PakError>(values)
        } else {
            Err::<Seq<u8>, PakError>(PakError::KeyLengthError)
        },
    decreases values.len(),
{
    let text = key_text(values);
    if values.len() == 0 {
        assert(text.take(0) =~= Seq::<u8>::empty());
        assert(values =~= Seq::<u8>::empty());
    } else {
        let v = values[0];
        let d = decimal(v);
        let n = d.len() as int;
        let tail = values.skip(1);
        lemma_decimal(v);
        lemma_key_text_parses(tail);
        assert forall|i: int| 0 <= i < n implies text[i] != NEWLINE by {
            assert(text[i] == d[i]);
            assert(is_digit(d[i]));
        }
        lemma_line_len(text, n);
        assert(text.take(n) =~= d);
        assert(is_digit(d[0]) && is_digit(d[n - 1]));
        assert(line_content(d, true) == d);
        lemma_trim(d, 0, n);
        assert(d.subrange(0, n) =~= d);
        assert(text.skip(n + 1) =~= key_text(tail));
        assert(seq![v] + tail =~= values);
    }
}

/// One bad line spoils the file: a text with a line that holds something and is
/// not a number is refused with `KeyFormatError`, wherever the line stands and
/// whatever the other lines hold.
pub proof fn lemma_bad_line_rejected(before: Seq<u8>, line: Seq<u8>, after: Seq<u8>)
    requires
        before.len() == 0 || before.last() == NEWLINE,
        after.len() == 0 || after[0] == NEWLINE,
        forall|i: int| 0 <= i < line.len() ==> line[i] != NEWLINE,
        line_content(line, after.len() > 0).len() > 0,
        number(trim(line_content(line, after.len() > 0))) is None,
    ensures
        decode_lines(before + line + after) is None,
        parse_key_text(before + line + after) == Err::<Seq<u8>, PakError>(PakError::KeyFormatError),
    decreases before.len(),
{
    let text = before + line + after;
    if before.len() == 0 {
        lemma_line_len(text, line.len() as int);
        assert(text.take(line.len() as int) =~= line);
    } else {
        lemma_line_len_le(text, before.len() - 1);
        let n = line_len(text) as int;
        let shorter = before.skip(n + 1);
        assert(text.skip(n + 1) =~= shorter + line + after);
        if shorter.len() > 0 {
            assert(shorter.last() == before.last());
        }
        lemma_bad_line_rejected(shorter, line, after);
    }
}

} // verus!
