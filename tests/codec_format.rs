use xtotp::codec::{decode, encode, DecodeError};
use xtotp::entry::{Algorithm, CredentialEntry, ValidationError};

fn sample() -> CredentialEntry {
    CredentialEntry::new(
        "GitHub".to_string(),
        30,
        vec![0xDE, 0xAD, 0xBE, 0xEF],
        6,
        Algorithm::HmacSha1,
    )
    .unwrap()
}

#[test]
fn wire_layout() {
    let bytes = encode(&sample());
    let mut expected = vec![1u8, 0, 30, 6, 0, 0, 0, 6];
    expected.extend_from_slice(b"GitHub");
    expected.extend_from_slice(&[0, 0, 0, 4, 0xDE, 0xAD, 0xBE, 0xEF]);
    assert_eq!(bytes, expected);
}

#[test]
fn round_trip_each_algorithm() {
    for algorithm in [Algorithm::HmacSha1, Algorithm::HmacSha256, Algorithm::HmacSha512] {
        let e = CredentialEntry::new(
            "Zürich ✓".to_string(),
            0xABCD,
            (0..=255u8).collect(),
            9,
            algorithm,
        )
        .unwrap();
        assert_eq!(decode(&encode(&e)), Ok(e));
    }
}

#[test]
fn algorithm_tags() {
    let mut e = sample();
    e.algorithm = Algorithm::HmacSha256;
    assert_eq!(encode(&e)[0], 2);
    e.algorithm = Algorithm::HmacSha512;
    assert_eq!(encode(&e)[0], 3);
}

#[test]
fn decode_truncated() {
    let bytes = encode(&sample());
    for cut in [0, 3, 7, 10, 14, bytes.len() - 1] {
        assert_eq!(decode(&bytes[..cut]), Err(DecodeError::Truncated));
    }
}

#[test]
fn decode_unknown_algorithm() {
    let mut bytes = encode(&sample());
    bytes[0] = 4;
    assert_eq!(decode(&bytes), Err(DecodeError::UnknownAlgorithm));
    bytes[0] = 0;
    assert_eq!(decode(&bytes), Err(DecodeError::UnknownAlgorithm));
}

#[test]
fn decode_invalid_name() {
    let mut bytes = encode(&sample());
    bytes[8] = 0xff;
    assert_eq!(decode(&bytes), Err(DecodeError::InvalidName));
}

#[test]
fn decode_trailing_bytes() {
    let mut bytes = encode(&sample());
    bytes.push(0);
    assert_eq!(decode(&bytes), Err(DecodeError::TrailingBytes));
}

#[test]
fn decode_digit_count_ten() {
    let mut bytes = encode(&sample());
    bytes[3] = 10;
    assert_eq!(
        decode(&bytes),
        Err(DecodeError::Invalid(ValidationError::DigitCount))
    );
}

#[test]
fn decode_empty_secret_and_name() {
    let bytes = vec![1u8, 0, 30, 6, 0, 0, 0, 1, b'a', 0, 0, 0, 0];
    assert_eq!(
        decode(&bytes),
        Err(DecodeError::Invalid(ValidationError::EmptySecret))
    );
    let bytes = vec![1u8, 0, 30, 6, 0, 0, 0, 0, 0, 0, 0, 1, 7];
    assert_eq!(
        decode(&bytes),
        Err(DecodeError::Invalid(ValidationError::EmptyName))
    );
    let bytes = vec![1u8, 0, 0, 6, 0, 0, 0, 1, b'a', 0, 0, 0, 1, 7];
    assert_eq!(
        decode(&bytes),
        Err(DecodeError::Invalid(ValidationError::ZeroStep))
    );
}

#[test]
fn construct_rejects_bad_fields() {
    let ok = |n: &str, s: u16, k: Vec<u8>, d: u8| {
        CredentialEntry::new(n.to_string(), s, k, d, Algorithm::HmacSha1)
    };
    assert_eq!(ok("", 30, vec![1], 6), Err(ValidationError::EmptyName));
    assert_eq!(ok("a", 0, vec![1], 6), Err(ValidationError::ZeroStep));
    assert_eq!(ok("a", 30, vec![], 6), Err(ValidationError::EmptySecret));
    assert_eq!(ok("a", 30, vec![1], 10), Err(ValidationError::DigitCount));
    assert_eq!(ok("a", 30, vec![1], 0), Err(ValidationError::DigitCount));
    assert!(ok("a", 30, vec![1], 1).is_ok());
    assert!(ok("a", 30, vec![1], 9).is_ok());
    let e = ok("a", 30, vec![1], 8).unwrap();
    assert_eq!(e.validate(), Ok(()));
}
