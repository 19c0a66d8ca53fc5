use url_shorter::codec::{decode, encode};
use url_shorter::errors::DecodeError;

#[test]
fn encode_zero() {
    assert_eq!(encode(0), "0");
}

#[test]
fn encode_small_values() {
    assert_eq!(encode(1), "1");
    assert_eq!(encode(9), "9");
    assert_eq!(encode(10), "a");
    assert_eq!(encode(35), "z");
}

#[test]
fn encode_radix_boundary() {
    assert_eq!(encode(36), "10");
    assert_eq!(encode(37), "11");
    assert_eq!(encode(36 * 36), "100");
}

#[test]
fn encode_max_identifier() {
    assert_eq!(encode(u64::MAX), "3w5e11264sgsf");
}

#[test]
fn decode_simple_values() {
    assert_eq!(decode("0"), Ok(0));
    assert_eq!(decode("z"), Ok(35));
    assert_eq!(decode("10"), Ok(36));
    assert_eq!(decode("3w5e11264sgsf"), Ok(u64::MAX));
}

#[test]
fn decode_accepts_leading_zeros() {
    assert_eq!(decode("01"), Ok(1));
    assert_eq!(decode("000"), Ok(0));
}

#[test]
fn decode_rejects_empty_string() {
    assert_eq!(decode(""), Err(DecodeError::InvalidCode));
}

#[test]
fn decode_rejects_foreign_characters() {
    assert_eq!(decode("A"), Err(DecodeError::InvalidCode));
    assert_eq!(decode("1-2"), Err(DecodeError::InvalidCode));
    assert_eq!(decode("not a url"), Err(DecodeError::InvalidCode));
    assert_eq!(decode("caf\u{e9}"), Err(DecodeError::InvalidCode));
}

#[test]
fn decode_rejects_overflow() {
    // One above the largest 64-bit identifier, and a longer string.
    assert_eq!(decode("3w5e11264sgsg"), Err(DecodeError::InvalidCode));
    assert_eq!(decode("zzzzzzzzzzzzz"), Err(DecodeError::InvalidCode));
}

#[test]
fn decode_inverts_encode() {
    let samples: [u64; 9] = [0, 1, 35, 36, 1295, 1296, 123456789, u64::MAX - 1, u64::MAX];
    for x in samples {
        assert_eq!(decode(&encode(x)), Ok(x));
    }
}
