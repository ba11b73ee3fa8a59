use bragi::fingerprint::fingerprint;

fn names(v: &[&str]) -> Vec<String> {
    v.iter().map(|s| s.to_string()).collect()
}

#[test]
fn fingerprint_ignores_enumeration_order() {
    let a = fingerprint(&names(&["01 - One.flac", "02 - Two.flac", "cover"]));
    let b = fingerprint(&names(&["cover", "02 - Two.flac", "01 - One.flac"]));
    assert_eq!(a, b);
}

#[test]
fn fingerprint_changes_when_a_name_is_added() {
    let a = fingerprint(&names(&["01 - One.flac"]));
    let b = fingerprint(&names(&["01 - One.flac", "02 - Two.flac"]));
    assert_ne!(a, b);
}

#[test]
fn fingerprint_changes_when_a_name_is_renamed() {
    let a = fingerprint(&names(&["01 - One.flac"]));
    let b = fingerprint(&names(&["01 - Uno.flac"]));
    assert_ne!(a, b);
}

#[test]
fn fingerprint_changes_when_a_name_is_removed() {
    let a = fingerprint(&names(&["01 - One.flac", "02 - Two.flac"]));
    let b = fingerprint(&names(&["01 - One.flac"]));
    assert_ne!(a, b);
}

#[test]
fn fingerprint_skips_hidden_names() {
    let a = fingerprint(&names(&["01 - One.flac", ".DS_Store"]));
    let b = fingerprint(&names(&["01 - One.flac"]));
    assert_eq!(a, b);
}

#[test]
fn fingerprint_is_blake3_over_the_sorted_names() {
    // One visible name: the digest is blake3 of exactly its bytes.
    let one = fingerprint(&names(&["abc"]));
    assert_eq!(one, blake3::hash(b"abc").to_hex().as_str());
    // Two names: sorted and concatenated before hashing.
    let two = fingerprint(&names(&["b", "a"]));
    assert_eq!(two, blake3::hash(b"ab").to_hex().as_str());
    // No names at all: the digest of the empty byte string.
    let empty = fingerprint(&Vec::new());
    assert_eq!(empty, blake3::hash(b"").to_hex().as_str());
}
