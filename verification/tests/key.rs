use lightbyte::error::PakError;
use lightbyte::key::generate;
use lightbyte::key::key_from_drawn;
use lightbyte::key::load;
use lightbyte::key::Key;

fn lines(values: &[u32]) -> Vec<u8> {
    let mut text = String::new();
    for v in values {
        text.push_str(&format!("{}\n", v));
    }
    text.into_bytes()
}

fn failure(text: &[u8]) -> Option<PakError> {
    Key::parse(text).err()
}

#[test]
fn file_of_32_lines_gives_those_bytes_in_order() {
    let values: Vec<u32> = (0..32).map(|i| (i * 8 + 7) % 256).collect();
    let key = Key::parse(&lines(&values)).unwrap();
    let expected: Vec<u8> = values.iter().map(|v| *v as u8).collect();
    assert_eq!(&key.as_bytes()[..], &expected[..]);
}

#[test]
fn extreme_values_are_read() {
    let mut values = vec![0u32; 32];
    values[1] = 255;
    values[2] = 9;
    values[3] = 10;
    values[4] = 99;
    values[5] = 100;
    let key = Key::parse(&lines(&values)).unwrap();
    assert_eq!(&key.as_bytes()[..6], &[0, 255, 9, 10, 99, 100]);
}

#[test]
fn file_of_31_lines_is_a_length_error() {
    assert_eq!(failure(&lines(&[1; 31])), Some(PakError::KeyLengthError));
}

#[test]
fn file_of_33_lines_is_a_length_error() {
    assert_eq!(failure(&lines(&[1; 33])), Some(PakError::KeyLengthError));
}

#[test]
fn empty_file_is_a_length_error() {
    assert_eq!(failure(b""), Some(PakError::KeyLengthError));
    assert_eq!(failure(b"\n\n\r\n"), Some(PakError::KeyLengthError));
}

#[test]
fn non_numeric_line_is_a_format_error() {
    let mut text = lines(&[1; 31]);
    text.extend_from_slice(b"abc\n");
    assert_eq!(failure(&text), Some(PakError::KeyFormatError));
}

#[test]
fn format_error_comes_before_length_error() {
    assert_eq!(failure(b"1\nx\n"), Some(PakError::KeyFormatError));
    assert_eq!(failure(b"x"), Some(PakError::KeyFormatError));
    let mut text = lines(&[1; 40]);
    text.extend_from_slice(b"12a\n");
    assert_eq!(failure(&text), Some(PakError::KeyFormatError));
}

#[test]
fn value_above_255_is_a_format_error() {
    let mut values = vec![1u32; 32];
    values[31] = 256;
    assert_eq!(failure(&lines(&values)), Some(PakError::KeyFormatError));
    values[31] = 1000;
    assert_eq!(failure(&lines(&values)), Some(PakError::KeyFormatError));
    values[31] = 4294967295;
    assert_eq!(failure(&lines(&values)), Some(PakError::KeyFormatError));
    values[31] = 255;
    assert!(Key::parse(&lines(&values)).is_ok());
}

#[test]
fn very_long_number_is_a_format_error() {
    let mut text = lines(&[1; 31]);
    text.extend_from_slice(b"99999999999999999999999999999999999999999999\n");
    assert_eq!(failure(&text), Some(PakError::KeyFormatError));
}

#[test]
fn malformed_numbers_are_format_errors() {
    for bad in ["-1", "1.5", "0x10", "1 2", "+", "++1", "1+", "12\t3", "\u{663}"] {
        let mut text = lines(&[1; 31]);
        text.extend_from_slice(bad.as_bytes());
        text.push(b'\n');
        assert_eq!(failure(&text), Some(PakError::KeyFormatError), "line {:?}", bad);
    }
}

#[test]
fn leading_zeros_and_plus_sign_are_read() {
    let mut text = lines(&[1; 29]);
    text.extend_from_slice(b"007\n+42\n0000000000000000000000255\n");
    let key = Key::parse(&text).unwrap();
    assert_eq!(&key.as_bytes()[29..], &[7, 42, 255]);
}

#[test]
fn blanks_around_a_number_are_dropped() {
    let mut text = lines(&[1; 29]);
    text.extend_from_slice(b"  7\n42 \t\n\t 255 \r\n");
    let key = Key::parse(&text).unwrap();
    assert_eq!(&key.as_bytes()[29..], &[7, 42, 255]);
}

#[test]
fn empty_lines_are_passed_over() {
    let mut text = b"\n\r\n".to_vec();
    text.extend_from_slice(&lines(&[3; 16]));
    text.extend_from_slice(b"\n\r\n\n");
    text.extend_from_slice(&lines(&[4; 16]));
    text.extend_from_slice(b"\n\n");
    let key = Key::parse(&text).unwrap();
    assert_eq!(&key.as_bytes()[..16], &[3; 16]);
    assert_eq!(&key.as_bytes()[16..], &[4; 16]);
}

#[test]
fn line_of_blanks_is_a_format_error() {
    for blank in [" ", "  ", "\t", " \t ", " \r", "\r ", "\u{b}", "\u{c}"] {
        let mut text = lines(&[1; 16]);
        text.extend_from_slice(blank.as_bytes());
        text.push(b'\n');
        text.extend_from_slice(&lines(&[1; 16]));
        assert_eq!(failure(&text), Some(PakError::KeyFormatError), "line {:?}", blank);
    }
}

#[test]
fn last_line_of_blanks_is_a_format_error() {
    let mut text = lines(&[1; 32]);
    assert!(Key::parse(&text).is_ok());
    text.push(b' ');
    assert_eq!(failure(&text), Some(PakError::KeyFormatError));
    let mut text = lines(&[1; 32]);
    text.push(b'\r');
    assert_eq!(failure(&text), Some(PakError::KeyFormatError));
}

#[test]
fn carriage_returns_and_missing_last_newline_are_accepted() {
    let mut text = Vec::new();
    for i in 0..31 {
        text.extend_from_slice(format!("{}\r\n", i).as_bytes());
    }
    text.extend_from_slice(b"31");
    let key = Key::parse(&text).unwrap();
    let expected: Vec<u8> = (0..32).collect();
    assert_eq!(&key.as_bytes()[..], &expected[..]);
}

#[test]
fn to_text_writes_one_decimal_number_per_line() {
    let mut bytes = [0u8; 32];
    bytes[0] = 0;
    bytes[1] = 7;
    bytes[2] = 42;
    bytes[3] = 255;
    bytes[4] = 100;
    bytes[5] = 10;
    bytes[6] = 9;
    bytes[7] = 109;
    let text = Key::from_bytes(bytes).to_text();
    let mut expected = b"0\n7\n42\n255\n100\n10\n9\n109\n".to_vec();
    for _ in 8..32 {
        expected.extend_from_slice(b"0\n");
    }
    assert_eq!(text, expected);
}

#[test]
fn parse_undoes_to_text() {
    let mut bytes = [0u8; 32];
    for (i, b) in bytes.iter_mut().enumerate() {
        *b = (i as u8).wrapping_mul(37).wrapping_add(201);
    }
    let key = Key::from_bytes(bytes);
    let text = key.to_text();
    assert_eq!(text.iter().filter(|b| **b == b'\n').count(), 32);
    let back = Key::parse(&text).unwrap();
    assert_eq!(back.as_bytes(), &bytes);
}

#[test]
fn every_byte_value_is_written_and_read_back() {
    for chunk in 0..8u32 {
        let mut bytes = [0u8; 32];
        for (i, b) in bytes.iter_mut().enumerate() {
            *b = (chunk * 32 + i as u32) as u8;
        }
        let text = Key::from_bytes(bytes).to_text();
        let expected: Vec<u32> = (chunk * 32..chunk * 32 + 32).collect();
        assert_eq!(text, lines(&expected));
        assert_eq!(Key::parse(&text).unwrap().as_bytes(), &bytes);
    }
}

#[test]
fn from_bytes_keeps_the_bytes() {
    let bytes = [0xA5u8; 32];
    assert_eq!(Key::from_bytes(bytes).as_bytes(), &bytes);
}

#[test]
fn load_without_a_file_is_key_file_missing() {
    assert_eq!(load(None).err(), Some(PakError::KeyFileMissing));
}

#[test]
fn load_reads_the_file_as_parse_does() {
    let text = lines(&[200; 32]);
    assert_eq!(load(Some(&text)).unwrap().as_bytes(), &[200u8; 32]);
    assert_eq!(load(Some(&lines(&[200; 5]))).err(), Some(PakError::KeyLengthError));
    assert_eq!(load(Some(b"key")).err(), Some(PakError::KeyFormatError));
}

#[test]
fn key_from_drawn_without_bytes_is_random_source_error() {
    assert_eq!(key_from_drawn(None).err(), Some(PakError::RandomSourceError));
    assert_eq!(key_from_drawn(Some([9u8; 32])).unwrap().as_bytes(), &[9u8; 32]);
}

#[test]
fn generated_keys_differ_and_survive_the_key_file() {
    let a = generate().unwrap();
    let b = generate().unwrap();
    assert_ne!(a.as_bytes(), b.as_bytes());
    assert_ne!(a.as_bytes(), &[0u8; 32]);
    let back = load(Some(&a.to_text())).unwrap();
    assert_eq!(back.as_bytes(), a.as_bytes());
}
