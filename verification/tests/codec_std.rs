//! Tests for the standard-alphabet codec value.

use b64codec::Base64;
use b64codec::DecodeError;
use b64codec::DeserializeError;

#[test]
fn lib_deserialize_known() {
    let base64_str = "Cr4BCrgBAQIDAHj0ZREHq1bONJuR5ImNOlC8TTbXrFSZ5ETcue/j52IG8AEQ9A1ynzkO7801Yub6KEL/AAAAfjB8BgkqhkiG9w0BBwagbzBtAgEAMGgGCSqGSIb3DQEHATAeBglghkgBZQMEAS4wEQQMppr+vkkDynbG8fbNAgEQgDsUjU+Hr6ietkfUzpkFwf+yF5BRS7+7RHRPlQvOHiyY8Ca91GOr+QP/4qTKnJ8w5PTV6Rx5r59aByPVqxCPAw==";
    let b64 = base64::decode_config(base64_str, base64::STANDARD).expect("decode worked");
    let de: Base64 = Base64::deserialize(&format!("\"{}\"", base64_str)).expect("deserialize worked");
    assert_eq!(de.0, b64);
}

#[test]
fn deserialize_fails_urlbase64() {
    let base64_str = "LYo7WN8-DSYHqZa9PxIVyiJpMDWyj6P4irM1QUFM3fI_pRfgbXSCNP_CWt0x49GgIFRQaN0iShf3IlxMDsLRLsKM2c5fdABpVi6L56Rfu4Vn9htGS6lXfm1Ylvds6ywcI9E6brLIMSHoJYCi8o0pH4bH_vWWD-8TEBfBm-lEtT2k2fyznMpvBEznQrixNifNS3obWmZv5VBcUBzbYJ-2QHfrOiufe9Xj8VisjNvOzsEMPOETEVFnMEY-OBY4fV1JifFtt-dR6Cst3JuHq3yeRiLVX_EQmyZZZrzCJOglcOxt85qXM5mlOnrz3M2vRQju1BYb-Cgmdho9Dg8gmKTdeQ";
    let received = Base64::deserialize(&format!("\"{}\"", base64_str)).unwrap_err();
    assert!(received.is_data());
}

#[test]
fn lib_serialize_empty() {
    let se = Base64(Vec::new()).serialize();
    assert_eq!(se, r#""""#);
}

#[test]
fn serialize_known() {
    let b64 = Base64(vec![2, 99]);
    let expected = r#""AmM=""#;
    let received = b64.serialize();
    assert_eq!(expected, received);
}

#[test]
fn from_str_known() {
    let expected = Base64(vec![2, 99]);
    let test_str = "AmM=";
    let received = Base64::from_str(test_str).unwrap();
    assert_eq!(expected, received);
}

#[test]
fn to_str_known() {
    let b64 = Base64(vec![2, 99]);
    let expected = "AmM=";
    let received = b64.to_string();
    assert_eq!(expected, received);
}

#[test]
fn short_byte_slice_fail_from_b64() {
    // too short to work
    let b64 = Base64::from_slice(&[0u8; 12][..]);
    let received = b64.try_fixed_length();
    assert!(received.is_err());
}

#[test]
fn long_byte_slice_fail_from_b64() {
    // too long to work
    let b64 = Base64::from_slice(&[0u8; 64][..]);
    let received = b64.try_fixed_length();
    assert!(received.is_err());
}

#[test]
fn str_roundtrip_various_lengths() {
    for len in 0..24usize {
        let vec: Vec<u8> = (0..len as u8).map(|b| b.wrapping_mul(37).wrapping_add(11)).collect();
        let b64 = Base64(vec);
        let b64_post = Base64::from_str(&b64.to_string()).unwrap();
        assert_eq!(b64, b64_post);
    }
}

#[test]
fn encode_matches_reference_codec() {
    for len in 0..24usize {
        let vec: Vec<u8> = (0..len as u8).map(|b| b.wrapping_mul(53).wrapping_add(7)).collect();
        let expected = base64::encode_config(&vec, base64::STANDARD);
        let received = Base64(vec).to_string();
        assert_eq!(expected, received);
    }
}

#[test]
fn decode_matches_reference_codec() {
    let samples = ["", "AA==", "AAE=", "AAEC", "TWFu", "TWE=", "/+8=", "enp6enp6"];
    for s in samples {
        let expected = base64::decode_config(s, base64::STANDARD).unwrap();
        let received = Base64::from_str(s).unwrap();
        assert_eq!(expected, received.0);
    }
}

#[test]
fn serde_roundtrip_known() {
    let b64 = Base64(vec![0, 255, 17, 3, 200]);
    let ser = b64.serialize();
    let de = Base64::deserialize(&ser).unwrap();
    assert_eq!(b64, de);
}

#[test]
fn padding_indifferent_decode() {
    // canonical, stripped and over-padded forms all yield the same bytes
    let expected = Base64(vec![2, 99]);
    assert_eq!(expected, Base64::from_str("AmM=").unwrap());
    assert_eq!(expected, Base64::from_str("AmM").unwrap());
    assert_eq!(expected, Base64::from_str("AmM==").unwrap());
    let one = Base64(vec![1]);
    assert_eq!(one, Base64::from_str("AQ==").unwrap());
    assert_eq!(one, Base64::from_str("AQ").unwrap());
}

#[test]
fn rejects_url_alphabet_characters() {
    assert_eq!(Base64::from_str("-_"), Err(DecodeError::InvalidCharacter));
    assert_eq!(Base64::from_str("ab_c"), Err(DecodeError::InvalidCharacter));
}

#[test]
fn rejects_interior_padding() {
    assert_eq!(Base64::from_str("A=A="), Err(DecodeError::InvalidCharacter));
}

#[test]
fn rejects_dangling_character() {
    // five characters survive padding-stripping: not a base64 grouping
    assert_eq!(Base64::from_str("AAAAA"), Err(DecodeError::InvalidLength));
    assert_eq!(Base64::from_str("A"), Err(DecodeError::InvalidLength));
}

#[test]
fn rejects_non_ascii_characters() {
    assert_eq!(Base64::from_str("Am\u{e9}="), Err(DecodeError::InvalidCharacter));
}

#[test]
fn padding_only_input_decodes_to_empty() {
    // with padding correctness not enforced, a bare padding run strips to
    // the empty (and well-formed) character stream
    assert_eq!(Base64::from_str("==").unwrap(), Base64(Vec::new()));
}

#[test]
fn deserialize_rejects_unquoted_scalar() {
    assert_eq!(Base64::deserialize("12"), Err(DeserializeError::NotAString));
    assert_eq!(Base64::deserialize(""), Err(DeserializeError::NotAString));
    assert_eq!(Base64::deserialize("\"a\"b\""), Err(DeserializeError::NotAString));
}

#[test]
fn deserialize_surfaces_decode_error() {
    assert_eq!(
        Base64::deserialize("\"A\""),
        Err(DeserializeError::InvalidEncoding(DecodeError::InvalidLength))
    );
    assert_eq!(
        Base64::deserialize("\"!!\""),
        Err(DeserializeError::InvalidEncoding(DecodeError::InvalidCharacter))
    );
}
