use strfile::extract_record;
use strfile::rot13;
use strfile::rot13_vec;
use strfile::Flags;
use strfile::Strfile;
use strfile::StrfileError;

fn index_bytes(
    version: u32,
    count: u32,
    longest: u32,
    shortest: u32,
    flags: u32,
    delim: u8,
    offsets: &[u32],
) -> Vec<u8> {
    let mut v = Vec::new();
    v.extend_from_slice(&version.to_be_bytes());
    v.extend_from_slice(&count.to_be_bytes());
    v.extend_from_slice(&longest.to_be_bytes());
    v.extend_from_slice(&shortest.to_be_bytes());
    v.extend_from_slice(&flags.to_be_bytes());
    v.push(delim);
    v.extend_from_slice(&[0, 0, 0]);
    for off in offsets {
        v.extend_from_slice(&off.to_be_bytes());
    }
    v
}

fn header_with(flags: u32, delim: u8, offsets: Vec<u32>) -> Strfile {
    Strfile {
        version: 2,
        number_of_strings: offsets.len() as u32,
        longest_length: 0,
        shortest_length: 0,
        flags,
        delim,
        offsets,
    }
}

#[test]
fn rot13_test() {
    let original_str = "Hello, world!".to_owned();
    let encrypted_str = "Uryyb, jbeyq!".to_owned();
    assert!(original_str == encrypted_str.chars().map(rot13).collect::<String>());
}

#[test]
fn rot13_hello_world() {
    let rotated: String = "Hello, world!".chars().map(rot13).collect();
    assert_eq!(rotated, "Uryyb, jbeyq!");
}

#[test]
fn rot13_double_is_identity() {
    let s = "Mixed CASE 0123, punctuation!? and\nnewlines";
    let once: String = s.chars().map(rot13).collect();
    let twice: String = once.chars().map(rot13).collect();
    assert_eq!(twice, s);
}

#[test]
fn rot13_vec_rotates_bytes() {
    let r = rot13_vec(b"Hello, world!");
    assert_eq!(r, b"Uryyb, jbeyq!".to_vec());
    assert_eq!(rot13_vec(&r), b"Hello, world!".to_vec());
}

#[test]
fn parse_reads_header_and_offsets() {
    let idx = index_bytes(2, 3, 40, 5, 4, b'%', &[0, 10, 20]);
    let h = Strfile::parse(&idx).unwrap();
    assert_eq!(h.version, 2);
    assert_eq!(h.number_of_strings, 3);
    assert_eq!(h.longest_length, 40);
    assert_eq!(h.shortest_length, 5);
    assert_eq!(h.flags, 4);
    assert_eq!(h.delim, b'%');
    assert_eq!(h.offsets, vec![0, 10, 20]);
}

#[test]
fn parse_reads_big_endian() {
    let idx = index_bytes(0x01020304, 1, 0, 0, 0, b'%', &[0x0A0B0C0D]);
    let h = Strfile::parse(&idx).unwrap();
    assert_eq!(h.version, 16909060);
    assert_eq!(h.offsets, vec![168496141]);
}

#[test]
fn parse_zero_records() {
    let idx = index_bytes(1, 0, 0, 0, 0, b'%', &[]);
    let h = Strfile::parse(&idx).unwrap();
    assert_eq!(h.number_of_strings, 0);
    assert!(h.offsets.is_empty());
}

#[test]
fn parse_truncated_header_fails() {
    let idx = index_bytes(1, 2, 0, 0, 0, b'%', &[0, 5]);
    assert_eq!(Strfile::parse(&idx[..10]).unwrap_err(), StrfileError::Format);
    assert_eq!(Strfile::parse(&idx[..23]).unwrap_err(), StrfileError::Format);
    assert_eq!(Strfile::parse(&[]).unwrap_err(), StrfileError::Format);
}

#[test]
fn parse_truncated_offset_table_fails() {
    let idx = index_bytes(1, 2, 0, 0, 0, b'%', &[0, 5]);
    let short = &idx[..idx.len() - 4];
    assert_eq!(Strfile::parse(short).unwrap_err(), StrfileError::Format);
    let shorter = &idx[..idx.len() - 5];
    assert_eq!(Strfile::parse(shorter).unwrap_err(), StrfileError::Format);
}

#[test]
fn flag_bit_1_random() {
    let h = header_with(1, b'%', vec![]);
    assert!(h.is_flag_set(Flags::Random));
    assert!(!h.is_flag_set(Flags::Ordered));
    assert!(!h.is_flag_set(Flags::Rotated));
    assert!(!h.is_flag_set(Flags::HasComments));
}

#[test]
fn flag_bit_2_ordered() {
    let h = header_with(2, b'%', vec![]);
    assert!(!h.is_flag_set(Flags::Random));
    assert!(h.is_flag_set(Flags::Ordered));
    assert!(!h.is_flag_set(Flags::Rotated));
    assert!(!h.is_flag_set(Flags::HasComments));
}

#[test]
fn flag_bit_4_rotated() {
    let h = header_with(4, b'%', vec![]);
    assert!(!h.is_flag_set(Flags::Random));
    assert!(!h.is_flag_set(Flags::Ordered));
    assert!(h.is_flag_set(Flags::Rotated));
    assert!(!h.is_flag_set(Flags::HasComments));
}

#[test]
fn flag_bit_8_has_comments() {
    let h = header_with(8, b'%', vec![]);
    assert!(!h.is_flag_set(Flags::Random));
    assert!(!h.is_flag_set(Flags::Ordered));
    assert!(!h.is_flag_set(Flags::Rotated));
    assert!(h.is_flag_set(Flags::HasComments));
}

#[test]
fn flag_all_bits_and_none() {
    let all = header_with(0xF, b'%', vec![]);
    assert!(all.is_flag_set(Flags::Random));
    assert!(all.is_flag_set(Flags::Ordered));
    assert!(all.is_flag_set(Flags::Rotated));
    assert!(all.is_flag_set(Flags::HasComments));
    let none = header_with(0, b'%', vec![]);
    assert!(!none.is_flag_set(Flags::Random));
    assert!(!none.is_flag_set(Flags::Ordered));
    assert!(!none.is_flag_set(Flags::Rotated));
    assert!(!none.is_flag_set(Flags::HasComments));
}

#[test]
fn extract_record_exact_bytes() {
    let data = b"a\nb\n%\nc\n";
    assert_eq!(extract_record(data, 0, b'%'), b"a\nb\n".to_vec());
    assert_eq!(extract_record(data, 6, b'%'), b"c\n".to_vec());
}

#[test]
fn extract_record_offset_past_end() {
    let data = b"a\n%\n";
    assert_eq!(extract_record(data, 100, b'%'), Vec::<u8>::new());
    assert_eq!(extract_record(data, 4, b'%'), Vec::<u8>::new());
}

#[test]
fn extract_record_delimiter_like_lines_kept() {
    // A line holding two delimiters, or a delimiter not followed by a
    // newline, is not a boundary and stays part of the record.
    let data = b"x\n%%\ny\n%\nz";
    assert_eq!(extract_record(data, 0, b'%'), b"x\n%%\ny\n".to_vec());
    let tail = b"x\n%";
    assert_eq!(extract_record(tail, 0, b'%'), b"x\n%".to_vec());
}

#[test]
fn read_quotes_returns_each_record() {
    let data = b"first quote\nsecond line\n%\nsecond quote\n%\nthird quote\n";
    let h = header_with(0, b'%', vec![0, 26, 41]);
    let q = h.read_quotes(data).unwrap();
    assert_eq!(
        q,
        vec![
            "first quote\nsecond line\n".to_owned(),
            "second quote\n".to_owned(),
            "third quote\n".to_owned(),
        ]
    );
}

#[test]
fn read_quotes_final_record_eof_terminated() {
    let data = b"first\n%\nlast without boundary\n";
    let h = header_with(0, b'%', vec![0, 8]);
    let q = h.read_quotes(data).unwrap();
    assert_eq!(q.len(), 2);
    assert_eq!(q[1], "last without boundary\n");
}

#[test]
fn read_quotes_empty_record_at_boundary() {
    let data = b"%\nreal\n%\n";
    let h = header_with(0, b'%', vec![0, 2]);
    let q = h.read_quotes(data).unwrap();
    assert_eq!(q, vec!["".to_owned(), "real\n".to_owned()]);
}

#[test]
fn read_quotes_applies_rot13_when_rotated() {
    let data = b"Uryyb, jbeyq!\n%\nFrpbaq\n";
    let h = header_with(4, b'%', vec![0, 16]);
    let q = h.read_quotes(data).unwrap();
    assert_eq!(q, vec!["Hello, world!\n".to_owned(), "Second\n".to_owned()]);
}

#[test]
fn read_quotes_without_rotated_flag_keeps_text() {
    let data = b"Uryyb, jbeyq!\n%\n";
    let h = header_with(0, b'%', vec![0]);
    let q = h.read_quotes(data).unwrap();
    assert_eq!(q, vec!["Uryyb, jbeyq!\n".to_owned()]);
}

#[test]
fn read_quotes_multibyte_text() {
    let data = "caf\u{e9} \u{2603}\n%\n".as_bytes();
    let h = header_with(0, b'%', vec![0]);
    let q = h.read_quotes(data).unwrap();
    assert_eq!(q, vec!["caf\u{e9} \u{2603}\n".to_owned()]);
}

#[test]
fn read_quotes_invalid_utf8_fails() {
    let data = &[0xFF, 0xFE, b'\n', b'%', b'\n'];
    let h = header_with(0, b'%', vec![0]);
    assert_eq!(h.read_quotes(data).unwrap_err(), StrfileError::Format);
}

#[test]
fn parse_then_read_quotes_round_trip() {
    let data = b"alpha\n%\nbeta\ngamma\n%\n";
    let idx = index_bytes(2, 2, 12, 6, 0, b'%', &[0, 8]);
    let h = Strfile::parse(&idx).unwrap();
    let q = h.read_quotes(data).unwrap();
    assert_eq!(q, vec!["alpha\n".to_owned(), "beta\ngamma\n".to_owned()]);
}
