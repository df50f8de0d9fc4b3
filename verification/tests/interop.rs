//! Tests for buffer interop, cross-codec conversion, transparent access and
//! the fixed-length conversion.

use b64codec::Base64;
use b64codec::LengthError;
use b64codec::UrlBase64;
use b64codec::FIXED_LENGTH;

#[test]
fn aes_key_try_from_b64() {
    let mut key = [0u8; 32];
    for (i, b) in key.iter_mut().enumerate() {
        *b = (i as u8).wrapping_mul(97).wrapping_add(5);
    }
    let b64 = Base64::from_slice(&key[..]);
    let received: [u8; 32] = b64.try_fixed_length().unwrap();
    assert_eq!(key, received);
}

#[test]
fn url_fixed_length_roundtrip() {
    let key = [7u8; 32];
    let b64 = UrlBase64::from_slice(&key[..]);
    let received: [u8; 32] = b64.try_fixed_length().unwrap();
    assert_eq!(key, received);
}

#[test]
fn length_error_reports_counts() {
    let b64 = Base64::from_slice(&[0u8; 12][..]);
    let err = b64.try_fixed_length().unwrap_err();
    assert_eq!(err, LengthError { actual: 12, expected: FIXED_LENGTH });
    let b64 = UrlBase64::from_slice(&[0u8; 64][..]);
    let err = b64.try_fixed_length().unwrap_err();
    assert_eq!(err, LengthError { actual: 64, expected: FIXED_LENGTH });
}

#[test]
fn from_urlbase64() {
    let vec = vec![9, 8, 7, 6];
    let url_base64 = UrlBase64(vec.clone());
    let expected = Base64(vec);
    let received = Base64::from(url_base64);
    assert_eq!(expected, received);
}

#[test]
fn to_urlbase64() {
    let vec = vec![1, 2, 3];
    let expected = UrlBase64(vec.clone());
    let received = UrlBase64::from(Base64(vec));
    assert_eq!(expected, received);
}

#[test]
fn cross_codec_roundtrip_preserves_bytes() {
    let vec = vec![42, 0, 255, 7];
    let start = Base64(vec.clone());
    let back = Base64::from(UrlBase64::from(Base64(vec)));
    assert_eq!(start, back);
}

#[test]
fn from_bytes_borrow() {
    let vec = vec![1, 2, 3, 4, 5];
    let buf = bytes::Bytes::from(vec.clone());
    assert_eq!(Base64(vec.clone()), Base64::from_bytes_buf(&buf));
    assert_eq!(UrlBase64(vec), UrlBase64::from_bytes_buf(&buf));
}

#[test]
fn from_bytes_owned() {
    let vec = vec![11, 22, 33];
    let buf = bytes::Bytes::from(vec.clone());
    let expected = Base64(vec);
    let received = Base64::from_bytes_owned(buf);
    assert_eq!(expected, received);
}

#[test]
fn to_bytes() {
    let vec = vec![5, 6, 7, 8];
    let expected = bytes::Bytes::from(vec.clone());
    let received: bytes::Bytes = Base64(vec.clone()).into_bytes_buf();
    assert_eq!(expected, received);
    let received: bytes::Bytes = UrlBase64(vec).into_bytes_buf();
    assert_eq!(expected, received);
}

#[test]
fn to_bytes_by_copy() {
    let vec = vec![13, 14];
    let b64 = Base64(vec.clone());
    let received = b64.to_bytes_buf();
    assert_eq!(bytes::Bytes::from(vec), received);
    // the source value is still usable after the copy
    assert_eq!(b64.as_bytes().as_slice(), &[13, 14][..]);
}

#[test]
fn transparent_read_access() {
    let vec = vec![2, 4, 6];
    let testb = Base64(vec.clone());
    let mut testv = vec![2u8];
    testv.extend_from_slice(testb.as_bytes());
    let mut expected = vec![2u8];
    expected.extend_from_slice(&vec);
    assert_eq!(expected, testv);
}

#[test]
fn transparent_write_access() {
    let mut vec = vec![10, 20, 30];
    let mut testb = Base64(vec.clone());
    testb.as_mut_bytes().swap(0, 1);
    vec.swap(0, 1);
    assert_eq!(vec, testb.0);
    let mut url = UrlBase64(vec.clone());
    url.as_mut_bytes().push(99);
    vec.push(99);
    assert_eq!(vec, url.0);
}

#[test]
fn empty_value_encodes_to_empty_string() {
    assert_eq!(Base64(Vec::new()).to_string(), "");
    assert_eq!(UrlBase64(Vec::new()).to_string(), "");
    assert_eq!(Base64::from_str("").unwrap(), Base64(Vec::new()));
}
