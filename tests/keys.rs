use spectecle::key::{hash_relative_path, hex_fixed};

#[test]
fn hex_fixed_renders_lower_case_padded() {
    assert_eq!(hex_fixed(0, 16), "0000000000000000");
    assert_eq!(hex_fixed(15, 1), "f");
    assert_eq!(hex_fixed(255, 4), "00ff");
    assert_eq!(hex_fixed(0x1234abcd, 16), "000000001234abcd");
    assert_eq!(hex_fixed(u64::MAX, 16), "ffffffffffffffff");
    assert_eq!(hex_fixed(7, 0), "");
}

#[test]
fn key_is_stable_for_a_path() {
    let a = hash_relative_path("shelf/book.epub");
    let b = hash_relative_path("shelf/book.epub");
    assert_eq!(a, b);
    assert_eq!(a.len(), 16);
    assert!(a.chars().all(|c| c.is_ascii_hexdigit() && !c.is_ascii_uppercase()));
}

#[test]
fn keys_differ_for_different_paths() {
    assert_ne!(hash_relative_path("a.epub"), hash_relative_path("b.epub"));
}
