use ptah_archive_decomposition::archive_model::{DecompositionOutcome, MemberKind};
use ptah_archive_decomposition::bytes::crc32;
use ptah_archive_decomposition::text_ops::{dedup_strings, normalize_type, truncate_utf8};

#[test]
fn crc32_check_value() {
    assert_eq!(crc32(b"123456789"), 0xcbf4_3926);
}

#[test]
fn normalize_type_trims_and_lowercases() {
    assert_eq!(normalize_type("  Image/PNG \n"), "image/png");
    assert_eq!(normalize_type("\u{3000}Text/Plain"), "text/plain");
    assert_eq!(normalize_type("   "), "");
}

#[test]
fn truncate_utf8_cuts_at_char_boundary() {
    assert_eq!(truncate_utf8("héllo", 2), ("h".to_string(), true));
    assert_eq!(truncate_utf8("héllo", 3), ("hé".to_string(), true));
    assert_eq!(truncate_utf8("abc", 3), ("abc".to_string(), false));
}

#[test]
fn dedup_keeps_first_occurrences() {
    let mut v = vec!["a".to_string(), "b".to_string(), "a".to_string(), "c".to_string(), "b".to_string()];
    dedup_strings(&mut v);
    assert_eq!(v, vec!["a".to_string(), "b".to_string(), "c".to_string()]);
}

#[test]
fn outcome_tokens() {
    assert_eq!(DecompositionOutcome::LockedEncrypted.as_str(), "locked_encrypted");
    assert!(DecompositionOutcome::Complete.is_complete());
    assert!(!DecompositionOutcome::Partial.is_complete());
    assert_eq!(MemberKind::Hardlink.as_str(), "hardlink");
}
