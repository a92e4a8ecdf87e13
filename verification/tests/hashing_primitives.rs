use conclave::hash::{compute_stable_id, sha256_bytes, sha256_str};

#[test]
fn sha256_empty_string() {
    let h = sha256_str("");
    assert_eq!(
        h.to_string(),
        "sha256:e3b0c44298fc1c149afbf4c8996fb92427ae41e4649b934ca495991b7852b855"
    );
}

#[test]
fn sha256_known_vector_abc() {
    let h = sha256_str("abc");
    assert_eq!(
        h.to_string(),
        "sha256:ba7816bf8f01cfea414140de5dae2223b00361a396177a9cb410ff61f20015ad"
    );
}

#[test]
fn sha256_bytes_matches_str() {
    let h1 = sha256_str("hello");
    let h2 = sha256_bytes(b"hello");
    assert_eq!(h1, h2);
}

#[test]
fn hash_parse_valid() {
    let s = "sha256:e3b0c44298fc1c149afbf4c8996fb92427ae41e4649b934ca495991b7852b855";
    let h = conclave::hash::Hash::parse(s).unwrap();
    assert_eq!(h.to_string(), s);
    assert_eq!(h.hex().len(), 64);
}

#[test]
fn hash_parse_invalid_prefix() {
    assert!(conclave::hash::Hash::parse("md5:abc").is_err());
}

#[test]
fn hash_parse_invalid_hex_length() {
    assert!(conclave::hash::Hash::parse("sha256:abc").is_err());
}

#[test]
fn hash_display_has_prefix() {
    let h = sha256_str("test");
    assert!(h.to_string().starts_with("sha256:"));
}

#[test]
fn hash_parse_accepts_upper_case_hex_and_keeps_text() {
    let s = "sha256:E3B0C44298FC1C149AFBF4C8996FB92427AE41E4649B934CA495991B7852B855";
    let h = conclave::hash::Hash::parse(s).unwrap();
    assert_eq!(h.to_string(), s);
    assert_eq!(h.hex(), &s[7..]);
}

#[test]
fn hash_parse_rejects_non_hex_digit() {
    let s = "sha256:g3b0c44298fc1c149afbf4c8996fb92427ae41e4649b934ca495991b7852b855";
    assert!(conclave::hash::Hash::parse(s).is_err());
}

#[test]
fn hash_parse_of_display_round_trips() {
    let h = sha256_str("round trip");
    let back = conclave::hash::Hash::parse(h.to_string().as_str()).unwrap();
    assert_eq!(back, h);
}

#[test]
fn sha256_bytes_digest_is_not_the_input() {
    // A 32-byte input whose hash text differs from its own hex encoding.
    let data = [0u8; 32];
    let h = sha256_bytes(&data);
    assert_ne!(h.hex(), "0000000000000000000000000000000000000000000000000000000000000000");
    assert_eq!(
        h.to_string(),
        "sha256:66687aadf862bd776c8fc18b8e9f8e20089714856ee233b3902a591d0d5f2925"
    );
}

#[test]
fn stable_id_is_deterministic() {
    let id1 = compute_stable_id("node", r#"{"kind":"intrinsic","op":"assemble_json"}"#);
    let id2 = compute_stable_id("node", r#"{"kind":"intrinsic","op":"assemble_json"}"#);
    assert_eq!(id1, id2);
}

#[test]
fn stable_id_differs_by_entity_kind() {
    let body = r#"{"x":1}"#;
    let a = compute_stable_id("node", body);
    let b = compute_stable_id("edge", body);
    assert_ne!(a, b);
}

#[test]
fn stable_id_differs_by_body() {
    let a = compute_stable_id("node", r#"{"x":1}"#);
    let b = compute_stable_id("node", r#"{"x":2}"#);
    assert_ne!(a, b);
}

#[test]
fn stable_id_has_sha256_prefix() {
    let id = compute_stable_id("node", "{}");
    assert!(id.to_string().starts_with("sha256:"));
}

#[test]
fn stable_id_golden_node() {
    let id = compute_stable_id("node", "{}");
    assert_eq!(
        id.to_string(),
        "sha256:ce12ab44806842a364bbd09b7e51b23a7108cc9e5d09c9f31e3ba2366ca9e6fd"
    );
}

#[test]
fn stable_id_is_hash_of_concatenation() {
    let id = compute_stable_id("node", "{}");
    assert_eq!(id, sha256_str("conclave:v0.1node{}"));
}
