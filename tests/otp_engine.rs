use xtotp::entry::{Algorithm, CredentialEntry};
use xtotp::otp::{
    code_from_digest, format_padded, generate_hmac_bytes, generate_totp_code, hotp_code,
    time_counter, unpack_u64, EngineError,
};

fn entry(secret: &[u8], digits: u8, algorithm: Algorithm) -> CredentialEntry {
    CredentialEntry {
        name: "rfc".to_string(),
        step_seconds: 30,
        shared_secret: secret.to_vec(),
        digit_count: digits,
        algorithm,
    }
}

const SECRET_20: &[u8] = b"12345678901234567890";
const SECRET_32: &[u8] = b"12345678901234567890123456789012";
const SECRET_64: &[u8] =
    b"1234567890123456789012345678901234567890123456789012345678901234";

#[test]
fn hotp_rfc4226_six_digits() {
    let expected = [
        "755224", "287082", "359152", "969429", "338314", "254676", "287922", "162583", "399871",
        "520489",
    ];
    let e = entry(SECRET_20, 6, Algorithm::HmacSha1);
    for (counter, code) in expected.iter().enumerate() {
        assert_eq!(hotp_code(&e, counter as u64).unwrap(), *code);
    }
}

#[test]
fn hotp_rfc4226_eight_digits() {
    let expected = [
        "84755224", "94287082", "37359152", "26969429", "40338314", "68254676", "18287922",
        "82162583", "73399871", "45520489",
    ];
    let e = entry(SECRET_20, 8, Algorithm::HmacSha1);
    for (counter, code) in expected.iter().enumerate() {
        assert_eq!(hotp_code(&e, counter as u64).unwrap(), *code);
    }
}

#[test]
fn totp_rfc6238_sha1() {
    let e = entry(SECRET_20, 8, Algorithm::HmacSha1);
    assert_eq!(generate_totp_code(59, &e).unwrap(), "94287082");
    assert_eq!(generate_totp_code(1111111109, &e).unwrap(), "07081804");
    assert_eq!(generate_totp_code(1234567890, &e).unwrap(), "89005924");
}

#[test]
fn totp_rfc6238_sha256() {
    let e = entry(SECRET_32, 8, Algorithm::HmacSha256);
    assert_eq!(generate_totp_code(59, &e).unwrap(), "46119246");
    assert_eq!(generate_totp_code(1111111109, &e).unwrap(), "68084774");
    assert_eq!(generate_totp_code(1234567890, &e).unwrap(), "91819424");
}

#[test]
fn totp_rfc6238_sha512() {
    let e = entry(SECRET_64, 8, Algorithm::HmacSha512);
    assert_eq!(generate_totp_code(59, &e).unwrap(), "90693936");
    assert_eq!(generate_totp_code(1111111109, &e).unwrap(), "25091201");
    assert_eq!(generate_totp_code(1234567890, &e).unwrap(), "93441116");
}

#[test]
fn same_inputs_same_code() {
    let e = entry(&[0xDE, 0xAD, 0xBE, 0xEF], 6, Algorithm::HmacSha1);
    let a = generate_totp_code(1_700_000_000, &e).unwrap();
    let b = generate_totp_code(1_700_000_000, &e).unwrap();
    assert_eq!(a, b);
    // same 30-second window
    let c = generate_totp_code(1_700_000_005, &e).unwrap();
    assert_eq!(a, c);
}

#[test]
fn step_boundary_adjacent_counters() {
    assert_eq!(time_counter(60, 30), 2);
    assert_eq!(time_counter(59, 30), 1);
    let e = entry(SECRET_20, 8, Algorithm::HmacSha1);
    assert_eq!(generate_totp_code(59, &e).unwrap(), hotp_code(&e, 1).unwrap());
    assert_eq!(generate_totp_code(60, &e).unwrap(), hotp_code(&e, 2).unwrap());
    assert_ne!(generate_totp_code(59, &e).unwrap(), generate_totp_code(60, &e).unwrap());
}

#[test]
fn truncation_of_rfc4226_example_digest() {
    let digest = [
        0x1f, 0x86, 0x98, 0x69, 0x0e, 0x02, 0xca, 0x16, 0x61, 0x85, 0x50, 0xef, 0x7f, 0x19, 0xda,
        0x8e, 0x94, 0x5b, 0x55, 0x5a,
    ];
    assert_eq!(code_from_digest(&digest, 6), "872921");
    assert_eq!(code_from_digest(&digest, 9), "357872921");
}

#[test]
fn truncation_reads_last_offset() {
    // offset 15 reads bytes 15..19 of a 20-byte digest; top bit is cleared
    let mut digest = [0u8; 20];
    digest[15] = 0xff;
    digest[16] = 0x00;
    digest[17] = 0x00;
    digest[18] = 0x2a;
    digest[19] = 0x0f;
    // (0x7f << 24) | 0x2a = 2130706474
    assert_eq!(code_from_digest(&digest, 9), "130706474");
    assert_eq!(code_from_digest(&digest, 1), "4");
}

#[test]
fn padded_formatting() {
    assert_eq!(format_padded(42, 6), "000042");
    assert_eq!(format_padded(1234567, 6), "234567");
    assert_eq!(format_padded(0, 8), "00000000");
    assert_eq!(format_padded(7, 0), "");
}

#[test]
fn counter_big_endian() {
    assert_eq!(unpack_u64(1), [0, 0, 0, 0, 0, 0, 0, 1]);
    assert_eq!(
        unpack_u64(0x0102_0304_0506_0708),
        [1, 2, 3, 4, 5, 6, 7, 8]
    );
}

#[test]
fn hmac_lengths_and_values() {
    let d1 = generate_hmac_bytes(Algorithm::HmacSha1, SECRET_20, &[0u8; 8]).unwrap();
    assert_eq!(d1.len(), 20);
    assert_eq!(d1[0], 0xcc);
    assert_eq!(d1[19], 0xb0);
    let d2 = generate_hmac_bytes(Algorithm::HmacSha256, SECRET_32, &[0u8; 8]).unwrap();
    assert_eq!(d2.len(), 32);
    let d3 = generate_hmac_bytes(Algorithm::HmacSha512, SECRET_64, &[0u8; 8]).unwrap();
    assert_eq!(d3.len(), 64);
}

#[test]
fn engine_errors() {
    let empty = entry(&[], 6, Algorithm::HmacSha1);
    assert_eq!(generate_totp_code(0, &empty), Err(EngineError::InvalidKey));
    assert_eq!(hotp_code(&empty, 0), Err(EngineError::InvalidKey));
    let mut zero_step = entry(SECRET_20, 6, Algorithm::HmacSha1);
    zero_step.step_seconds = 0;
    assert_eq!(generate_totp_code(0, &zero_step), Err(EngineError::InvalidParameters));
    let ten = entry(SECRET_20, 10, Algorithm::HmacSha1);
    assert_eq!(generate_totp_code(0, &ten), Err(EngineError::InvalidParameters));
    let zero_digits = entry(SECRET_20, 0, Algorithm::HmacSha1);
    assert_eq!(hotp_code(&zero_digits, 0), Err(EngineError::InvalidParameters));
}
