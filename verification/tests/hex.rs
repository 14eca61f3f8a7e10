use serde_with::hex::{Hex, HexError};

fn encode_all(values: &Vec<Vec<u8>>) -> Vec<String> {
    values.iter().map(|b| Hex::serialize_as(b)).collect()
}

fn decode_all(values: &Vec<String>) -> Result<Vec<Vec<u8>>, HexError> {
    values.iter().map(|s| Hex::deserialize_as(s)).collect()
}

#[test]
fn hex_hex_vec() {
    let bytes = vec![vec![0u8, 1, 2, 13], vec![14u8, 5, 6, 7]];
    let encoded = encode_all(&bytes);
    let json = format!(
        "{{\"bytes\":{}}}",
        serde_json::to_string(&encoded).unwrap()
    );
    assert_eq!(json, "{\"bytes\":[\"0001020d\",\"0e050607\"]}");

    let parsed: Vec<String> = serde_json::from_str("[\"0001020d\",\"0e050607\"]").unwrap();
    assert_eq!(decode_all(&parsed).unwrap(), bytes);
}

#[test]
fn hex_vec_mixed_case_and_errors() {
    let parsed = vec!["aaBCff".to_string(), "E07d".to_string()];
    assert_eq!(
        decode_all(&parsed).unwrap(),
        vec![vec![0xaa, 0xbc, 0xff], vec![0xe0, 0x7d]]
    );
    assert_eq!(Hex::deserialize_as("0"), Err(HexError::OddLength));
    assert_eq!(
        Hex::deserialize_as("zz"),
        Err(HexError::InvalidHexCharacter { c: 'z', index: 0 })
    );
    assert_eq!(
        Hex::deserialize_as("0g"),
        Err(HexError::InvalidHexCharacter { c: 'g', index: 1 })
    );
}

#[test]
fn hex_roundtrip_and_empty() {
    let all: Vec<u8> = (0u8..=255).collect();
    let s = Hex::serialize_as(&all);
    assert_eq!(s.len(), 512);
    assert_eq!(&s[..6], "000102");
    assert_eq!(&s[s.len() - 4..], "feff");
    assert_eq!(Hex::deserialize_as(&s).unwrap(), all);
    assert_eq!(Hex::serialize_as(&vec![]), "");
    assert_eq!(Hex::deserialize_as("").unwrap(), Vec::<u8>::new());
    // The encoding is lowercase; decoding an uppercase string and encoding
    // again gives the lowercase form.
    let back = Hex::serialize_as(&Hex::deserialize_as("ABCDEF").unwrap());
    assert_eq!(back, "abcdef");
}
