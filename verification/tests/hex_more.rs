use serde_with::hex::Hex;

#[test]
fn hex_vec_lowercase() {
    let bytes = vec![vec![0u8, 1, 2, 13], vec![14u8, 5, 6, 7]];
    let encoded: Vec<String> = bytes.iter().map(|b| Hex::serialize_as(b)).collect();
    assert_eq!(
        format!("{{\"bytes\":{}}}", serde_json::to_string(&encoded).unwrap()),
        r#"{"bytes":["0001020d","0e050607"]}"#
    );
    // Mixed case deserialization.
    let decoded: Vec<Vec<u8>> = ["aaBCff", "E07d"]
        .iter()
        .map(|s| Hex::deserialize_as(s).unwrap())
        .collect();
    assert_eq!(decoded, vec![vec![0xaa, 0xbc, 0xff], vec![0xe0, 0x7d]]);
}

#[test]
fn serde_as_hex_vec() {
    let bytes = vec![vec![0u8, 1, 2, 3], vec![4u8, 5, 6, 7]];
    let encoded: Vec<String> = bytes.iter().map(|b| Hex::serialize_as(b)).collect();
    assert_eq!(
        format!("{{\"bytes\":{}}}", serde_json::to_string(&encoded).unwrap()),
        "{\"bytes\":[\"00010203\",\"04050607\"]}"
    );
    let parsed: Vec<String> = serde_json::from_str("[\"00010203\",\"04050607\"]").unwrap();
    let decoded: Vec<Vec<u8>> = parsed.iter().map(|s| Hex::deserialize_as(s).unwrap()).collect();
    assert_eq!(decoded, bytes);
}

#[test]
fn hex_encoding_of_a_decoding_is_lowercase() {
    for s in ["ABCDEF", "aBcD09", "", "00ff"] {
        let back = Hex::serialize_as(&Hex::deserialize_as(s).unwrap());
        assert_eq!(back, s.to_ascii_lowercase());
    }
}
