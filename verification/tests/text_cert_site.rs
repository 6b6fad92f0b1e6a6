use qpackt::cert::{frame_der, use_cached_certificate};
use qpackt::site::{create_name, find_web_root, DirEntryKind};
use qpackt::text::{contains_str, find_char, format_i64, format_u64, parse_u64, str_eq, starts_with};

#[test]
fn decimal_formatting_round_trips() {
    for v in [0u64, 1, 9, 10, 99, 100, 12345, u64::MAX] {
        let s = format_u64(v);
        assert_eq!(parse_u64(&s), Some(v));
    }
    assert_eq!(format_u64(0), "0");
    assert_eq!(format_u64(67280421310721), "67280421310721");
    assert_eq!(format_i64(-42), "-42");
    assert_eq!(format_i64(7), "7");
    assert_eq!(format_i64(i64::MIN), "-9223372036854775808");
}

#[test]
fn parse_rejects_non_numbers() {
    assert_eq!(parse_u64(""), None);
    assert_eq!(parse_u64("12a"), None);
    assert_eq!(parse_u64("-1"), None);
    assert_eq!(parse_u64("18446744073709551615"), Some(u64::MAX));
    assert_eq!(parse_u64("18446744073709551616"), None);
}

#[test]
fn string_search_helpers() {
    assert!(str_eq("abc", "abc"));
    assert!(!str_eq("abc", "abd"));
    assert!(starts_with("/reverse/test", "/reverse"));
    assert!(!starts_with("/rev", "/reverse"));
    assert!(contains_str("a=1&beta=2", "beta"));
    assert!(!contains_str("a=1&b=2", "beta"));
    assert!(contains_str("anything", ""));
    assert_eq!(find_char("key: value", ':'), Some(3));
    assert_eq!(find_char("abc", 'z'), None);
}

#[test]
fn der_framing_prefixes_big_endian_length() {
    let der = vec![0xAAu8; 300];
    let framed = frame_der(&der).unwrap();
    assert_eq!(framed.len(), 303);
    assert_eq!(&framed[0..3], &[0x00, 0x01, 0x2C]);
    assert_eq!(&framed[3..], der.as_slice());
    let small = frame_der(&vec![0x01, 0x02]).unwrap();
    assert_eq!(small, vec![0x00, 0x00, 0x02, 0x01, 0x02]);
}

#[test]
fn cached_certificate_needs_two_days() {
    assert!(use_cached_certificate(2));
    assert!(!use_cached_certificate(1));
    assert!(!use_cached_certificate(-3));
}

#[test]
fn web_root_is_the_single_directory() {
    let entries = vec![DirEntryKind::Directory];
    assert_eq!(find_web_root(&entries), Some(0));
    let with_other = vec![DirEntryKind::Other, DirEntryKind::Directory];
    assert_eq!(find_web_root(&with_other), Some(1));
    let two_dirs = vec![DirEntryKind::Directory, DirEntryKind::Directory];
    assert_eq!(find_web_root(&two_dirs), None);
    let with_file = vec![DirEntryKind::Directory, DirEntryKind::File];
    assert_eq!(find_web_root(&with_file), None);
    let empty: Vec<DirEntryKind> = Vec::new();
    assert_eq!(find_web_root(&empty), None);
}

#[test]
fn upload_names_carry_the_timestamp() {
    let name = create_name(2024, 1, 2, 3, 4, 5);
    assert!(name.matches("2024_01_02__03_04_05"));
    let name = create_name(2023, 12, 31, 23, 59, 58);
    assert!(name.matches("2023_12_31__23_59_58"));
}
