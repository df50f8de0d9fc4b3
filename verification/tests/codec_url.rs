//! Tests for the URL-safe codec value.

use b64codec::Base64;
use b64codec::DecodeError;
use b64codec::UrlBase64;

#[test]
fn deserialize_known() {
    let base64_str = "LYo7WN8-DSYHqZa9PxIVyiJpMDWyj6P4irM1QUFM3fI_pRfgbXSCNP_CWt0x49GgIFRQaN0iShf3IlxMDsLRLsKM2c5fdABpVi6L56Rfu4Vn9htGS6lXfm1Ylvds6ywcI9E6brLIMSHoJYCi8o0pH4bH_vWWD-8TEBfBm-lEtT2k2fyznMpvBEznQrixNifNS3obWmZv5VBcUBzbYJ-2QHfrOiufe9Xj8VisjNvOzsEMPOETEVFnMEY-OBY4fV1JifFtt-dR6Cst3JuHq3yeRiLVX_EQmyZZZrzCJOglcOxt85qXM5mlOnrz3M2vRQju1BYb-Cgmdho9Dg8gmKTdeQ";
    let b64 = base64::decode_config(base64_str, base64::URL_SAFE).expect("decode worked");
    let de: UrlBase64 =
        UrlBase64::deserialize(&format!("\"{}\"", base64_str)).expect("deserialize worked");
    assert_eq!(de.0, b64);
}

#[test]
fn deserialize_fails_stdbase64() {
    let base64_str = "Cr4BCrgBAQIDAHj0ZREHq1bONJuR5ImNOlC8TTbXrFSZ5ETcue/j52IG8AEQ9A1ynzkO7801Yub6KEL/AAAAfjB8BgkqhkiG9w0BBwagbzBtAgEAMGgGCSqGSIb3DQEHATAeBglghkgBZQMEAS4wEQQMppr+vkkDynbG8fbNAgEQgDsUjU+Hr6ietkfUzpkFwf+yF5BRS7+7RHRPlQvOHiyY8Ca91GOr+QP/4qTKnJ8w5PTV6Rx5r59aByPVqxCPAw==";
    let received = UrlBase64::deserialize(&format!("\"{}\"", base64_str)).unwrap_err();
    assert!(received.is_data());
}

#[test]
fn serialize_empty() {
    let se = UrlBase64::default().serialize();
    assert_eq!(se, r#""""#);
}

#[test]
fn from_byte_slice() {
    let arr: [u8; 3] = [10, 20, 30];
    let slice = &arr[..];
    let expected = UrlBase64(arr.to_vec());
    let received = UrlBase64::from_slice(slice);
    assert_eq!(expected, received);
}

#[test]
fn url_encode_matches_reference_codec() {
    for len in 0..24usize {
        let vec: Vec<u8> = (0..len as u8).map(|b| b.wrapping_mul(251).wrapping_add(3)).collect();
        let expected = base64::encode_config(&vec, base64::URL_SAFE);
        let received = UrlBase64(vec).to_string();
        assert_eq!(expected, received);
    }
}

#[test]
fn url_str_roundtrip_known() {
    let b64 = UrlBase64(vec![255, 239, 190, 0, 1]);
    let b64_post = UrlBase64::from_str(&b64.to_string()).unwrap();
    assert_eq!(b64, b64_post);
}

#[test]
fn url_serde_roundtrip_known() {
    let b64 = UrlBase64(vec![251, 255, 0, 42]);
    let ser = b64.serialize();
    let de = UrlBase64::deserialize(&ser).unwrap();
    assert_eq!(b64, de);
}

#[test]
fn url_uses_dash_and_underscore() {
    // bytes whose standard encoding uses `+` and `/` swap to `-` and `_`
    let bytes = vec![255, 239];
    assert_eq!(Base64(bytes.clone()).to_string(), "/+8=");
    assert_eq!(UrlBase64(bytes).to_string(), "_-8=");
}

#[test]
fn url_rejects_standard_alphabet_characters() {
    assert_eq!(UrlBase64::from_str("+/"), Err(DecodeError::InvalidCharacter));
    assert_eq!(UrlBase64::from_str("ab/c"), Err(DecodeError::InvalidCharacter));
}

#[test]
fn url_accepts_dash_and_underscore() {
    let decoded = UrlBase64::from_str("_-8=").unwrap();
    assert_eq!(decoded, UrlBase64(vec![255, 239]));
}
