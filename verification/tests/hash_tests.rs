use ffstudio::hash::{format_short_hash, short_hash};
use std::collections::hash_map::DefaultHasher;
use std::hash::{Hash, Hasher};

#[test]
fn formatting_renders_nibbles_most_significant_first() {
    assert_eq!(format_short_hash(0x1234567890abcdef), "12345678-90ab-cdef");
    assert_eq!(format_short_hash(0), "00000000-0000-0000");
    assert_eq!(format_short_hash(u64::MAX), "ffffffff-ffff-ffff");
    assert_eq!(format_short_hash(1), "00000000-0000-0001");
}

#[test]
fn short_hash_matches_the_default_hasher() {
    let input = "/usr/bin/ffmpeg -version";
    let mut hasher = DefaultHasher::new();
    input.hash(&mut hasher);
    let h = hasher.finish();
    let expected = format!(
        "{:08x}-{:04x}-{:04x}",
        (h >> 32) as u32,
        ((h >> 16) & 0xffff) as u16,
        (h & 0xffff) as u16
    );
    assert_eq!(short_hash(input), expected);
}

#[test]
fn short_hash_is_deterministic() {
    assert_eq!(short_hash("some path"), short_hash("some path"));
}

#[test]
fn short_hash_has_the_guid_like_shape() {
    let s = short_hash("anything");
    assert_eq!(s.len(), 18);
    let bytes = s.as_bytes();
    assert_eq!(bytes[8], b'-');
    assert_eq!(bytes[13], b'-');
    assert!(s
        .chars()
        .enumerate()
        .all(|(i, c)| if i == 8 || i == 13 { c == '-' } else { c.is_ascii_hexdigit() }));
}
