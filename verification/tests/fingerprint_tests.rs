use harnas_monitor::fingerprint::fnv1a_64;

#[test]
fn empty_input_gives_offset_basis() {
    assert_eq!(fnv1a_64(&[]), 0xcbf29ce484222325);
}

#[test]
fn known_single_byte_value() {
    // FNV-1a of "a": (basis ^ 0x61) * prime mod 2^64.
    assert_eq!(fnv1a_64(b"a"), 0xaf63dc4c8601ec8c);
}

#[test]
fn deterministic_on_same_bytes() {
    let data = b"[[tasks]]\nid = \"A\"\ntitle = \"t\"\n";
    assert_eq!(fnv1a_64(data), fnv1a_64(data));
    let copy = data.to_vec();
    assert_eq!(fnv1a_64(data), fnv1a_64(&copy));
}

#[test]
fn single_bit_difference_changes_value() {
    // 'a' (0x61) and 'c' (0x63) differ in exactly one bit.
    assert_ne!(fnv1a_64(b"a"), fnv1a_64(b"c"));
    assert_ne!(fnv1a_64(b"task a"), fnv1a_64(b"task c"));
}

#[test]
fn order_matters() {
    assert_ne!(fnv1a_64(b"ab"), fnv1a_64(b"ba"));
}
