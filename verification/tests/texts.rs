use gonk_core::text::{bytes_eq, ci_le_bytes, ends_with, lower_byte, starts_with};

#[test]
fn byte_texts_compare_exactly() {
    assert!(bytes_eq(&b"abc".to_vec(), &b"abc".to_vec()));
    assert!(!bytes_eq(&b"abc".to_vec(), &b"abd".to_vec()));
    assert!(!bytes_eq(&b"abc".to_vec(), &b"ab".to_vec()));
}

#[test]
fn ordering_folds_ascii_case() {
    assert!(ci_le_bytes(&b"Alpha".to_vec(), &b"beta".to_vec()));
    assert!(!ci_le_bytes(&b"beta".to_vec(), &b"Alpha".to_vec()));
    // equal after folding: both directions hold
    assert!(ci_le_bytes(&b"ABBA".to_vec(), &b"abba".to_vec()));
    assert!(ci_le_bytes(&b"abba".to_vec(), &b"ABBA".to_vec()));
    // a prefix comes first
    assert!(ci_le_bytes(&b"ab".to_vec(), &b"abc".to_vec()));
    assert!(!ci_le_bytes(&b"abc".to_vec(), &b"ab".to_vec()));
    assert_eq!(lower_byte(b'Z'), b'z');
    assert_eq!(lower_byte(b'3'), b'3');
}

#[test]
fn prefixes_and_suffixes() {
    assert!(starts_with(&b"/music/a.flac".to_vec(), &b"/music".to_vec()));
    assert!(!starts_with(&b"/music/a.flac".to_vec(), &b"/other".to_vec()));
    assert!(ends_with(&b"/music/a.flac".to_vec(), &b".flac".to_vec()));
    assert!(!ends_with(&b"/music/a.flac".to_vec(), &b".mp3".to_vec()));
    assert!(starts_with(&b"x".to_vec(), &b"".to_vec()));
}
