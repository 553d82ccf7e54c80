//! One-time-password derivation: HOTP from a counter, TOTP from a time.

use crate::entry::{Algorithm, CredentialEntry, MAX_DIGITS};
use crate::mac::{hmac_sha1, hmac_sha1_of, hmac_sha256, hmac_sha256_of, hmac_sha512, hmac_sha512_of};
use vstd::prelude::*;

verus! {

/// Why no code could be derived for an entry.
#[derive(Debug, Clone, Copy, PartialEq, Eq, Structural)]
pub enum EngineError {
    /// The key is empty, or the keyed hash refused it.
    InvalidKey,
    /// The step is zero or the digit count is out of range.
    InvalidParameters,
}

pub open spec fn pow10(n: nat) -> nat
    decreases n,
{
    if n == 0 {
        1
    } else {
        10 * pow10((n - 1) as nat)
    }
}

pub proof fn lemma_pow10_positive(n: nat)
    ensures
        pow10(n) >= 1,
    decreases n,
{
    if n > 0 {
        lemma_pow10_positive((n - 1) as nat);
    }
}

/// The character of a decimal digit.
pub open spec fn digit_char(d: nat) -> char {
    ((d + 48) as u8) as char
}

/// `n` in decimal, keeping its `width` lowest digits, with leading zeros.
pub open spec fn padded_decimal(n: nat, width: nat) -> Seq<char> {
    Seq::new(width, |i: int| digit_char((n / pow10((width - 1 - i) as nat)) % 10))
}

/// A counter as eight bytes, most significant first.
pub open spec fn counter_bytes(v: u64) -> Seq<u8> {
    seq![
        (v >> 56u64) as u8,
        (v >> 48u64) as u8,
        (v >> 40u64) as u8,
        (v >> 32u64) as u8,
        (v >> 24u64) as u8,
        (v >> 16u64) as u8,
        (v >> 8u64) as u8,
        v as u8,
    ]
}

/// The keyed hash of a message under the chosen algorithm.
pub open spec fn mac_of(algorithm: Algorithm, key: Seq<u8>, msg: Seq<u8>) -> Seq<u8> {
    match algorithm {
        Algorithm::HmacSha1 => hmac_sha1_of(key, msg),
        Algorithm::HmacSha256 => hmac_sha256_of(key, msg),
        Algorithm::HmacSha512 => hmac_sha512_of(key, msg),
    }
}

/// Dynamic truncation: the low nibble of the last byte picks four bytes,
/// read big-endian with the top bit cleared.
pub open spec fn truncate(d: Seq<u8>) -> nat {
    let o = (d.last() % 16) as int;
    ((d[o] % 128) as nat) * 0x100_0000 + (d[o + 1] as nat) * 0x1_0000 + (d[o + 2] as nat) * 0x100
        + (d[o + 3] as nat)
}

/// The code of `digits` characters that a digest yields.
pub open spec fn code_of_digest(d: Seq<u8>, digits: nat) -> Seq<char> {
    padded_decimal(truncate(d) % pow10(digits), digits)
}

/// The HOTP code for a counter.
pub open spec fn hotp(algorithm: Algorithm, key: Seq<u8>, counter: u64, digits: nat) -> Seq<char> {
    code_of_digest(mac_of(algorithm, key, counter_bytes(counter)), digits)
}

/// The TOTP code for a time in whole seconds since the Unix epoch.
pub open spec fn totp(
    algorithm: Algorithm,
    key: Seq<u8>,
    step: u16,
    unix_time: u64,
    digits: nat,
) -> Seq<char>
    recommends
        step > 0,
{
    hotp(algorithm, key, (unix_time / step as u64) as u64, digits)
}

/// Within one time step the code does not change: two times whose counters
/// agree give the same code, whatever else holds.
pub proof fn lemma_same_step_same_code(
    algorithm: Algorithm,
    key: Seq<u8>,
    step: u16,
    t1: u64,
    t2: u64,
    digits: nat,
)
    requires
        step > 0,
        t1 / step as u64 == t2 / step as u64,
    ensures
        totp(algorithm, key, step, t1, digits) == totp(algorithm, key, step, t2, digits),
{
}

/// Every code has exactly the configured number of characters, each a
/// decimal digit.
pub proof fn lemma_code_shape(
    algorithm: Algorithm,
    key: Seq<u8>,
    step: u16,
    unix_time: u64,
    digits: nat,
)
    requires
        step > 0,
    ensures
        totp(algorithm, key, step, unix_time, digits).len() == digits,
        forall|i: int|
            0 <= i < digits ==> '0' <= #[trigger] totp(algorithm, key, step, unix_time, digits)[i]
                <= '9',
{
}

/// A time on a step boundary and the second before it fall in adjacent steps.
pub proof fn lemma_step_boundary(unix_time: u64, step: u16)
    requires
        step > 0,
        unix_time > 0,
        unix_time % step as u64 == 0,
    ensures
        unix_time / step as u64 == (unix_time - 1) as u64 / step as u64 + 1,
{
    let t = unix_time as int;
    let s = step as int;
    let q = t / s;
    vstd::arithmetic::div_mod::lemma_fundamental_div_mod(t, s);
    assert(t == q * s);
    assert(q >= 1) by (nonlinear_arith)
        requires
            t == q * s,
            t > 0,
            s > 0,
    ;
    assert(t - 1 == (q - 1) * s + (s - 1)) by (nonlinear_arith)
        requires
            t == q * s,
    ;
    vstd::arithmetic::div_mod::lemma_div_multiples_vanish_fancy(q - 1, s - 1, s);
}

fn digit_str(d: u64) -> (r: &'static str)
    requires
        d < 10,
    ensures
        r@ == seq![digit_char(d as nat)],
{
    proof {
        reveal_strlit("0");
        reveal_strlit("1");
        reveal_strlit("2");
        reveal_strlit("3");
        reveal_strlit("4");
        reveal_strlit("5");
        reveal_strlit("6");
        reveal_strlit("7");
        reveal_strlit("8");
        reveal_strlit("9");
    }
    match d {
        0 => "0",
        1 => "1",
        2 => "2",
        3 => "3",
        4 => "4",
        5 => "5",
        6 => "6",
        7 => "7",
        8 => "8",
        _ => "9",
    }
}

fn pow10_u64(n: u8) -> (r: u64)
    requires
        n <= MAX_DIGITS,
    ensures
        r == pow10(n as nat),
{
    proof {
        reveal_with_fuel(pow10, 10);
    }
    match n {
        0 => 1,
        1 => 10,
        2 => 100,
        3 => 1_000,
        4 => 10_000,
        5 => 100_000,
        6 => 1_000_000,
        7 => 10_000_000,
        8 => 100_000_000,
        _ => 1_000_000_000,
    }
}

/// `n` in decimal, keeping its `width` lowest digits, with leading zeros.
pub fn format_padded(n: u64, width: u8) -> (r: String)
    requires
        width <= MAX_DIGITS,
    ensures
        r@ == padded_decimal(n as nat, width as nat),
{
    let mut s = String::new();
    if width == 0 {
        assert(s@ =~= padded_decimal(n as nat, 0));
        return s;
    }
    let mut p: u64 = pow10_u64(width - 1);
    let mut i: u8 = 0;
    while i < width
        invariant
            0 < width <= MAX_DIGITS,
            i <= width,
            i < width ==> p == pow10((width - 1 - i) as nat),
            s@ =~= Seq::new(
                i as nat,
                |j: int| digit_char((n as nat / pow10((width - 1 - j) as nat)) % 10),
            ),
        decreases width - i,
    {
        proof {
            lemma_pow10_positive((width - 1 - i) as nat);
        }
        let d = (n / p) % 10;
        s.append(digit_str(d));
        p = p / 10;
        i = i + 1;
        if i < width {
            assert(pow10((width - i) as nat) == 10 * pow10((width - 1 - i) as nat));
        }
    }
    s
}

/// The code of `digit_count` characters that a digest yields by dynamic truncation.
pub fn code_from_digest(digest: &[u8], digit_count: u8) -> (r: String)
    requires
        digest@.len() >= 20,
        1 <= digit_count <= MAX_DIGITS,
    ensures
        r@ == code_of_digest(digest@, digit_count as nat),
{
    let last = digest[digest.len() - 1];
    let offset: usize = (last & 0x0f) as usize;
    assert(last & 0x0f == last % 16) by (bit_vector);
    let first = digest[offset];
    assert(first & 0x7f == first % 128) by (bit_vector);
    let binary: u64 = ((first & 0x7f) as u64) * 0x100_0000 + (digest[offset + 1] as u64) * 0x1_0000
        + (digest[offset + 2] as u64) * 0x100 + (digest[offset + 3] as u64);
    let modulus = pow10_u64(digit_count);
    proof {
        lemma_pow10_positive(digit_count as nat);
    }
    format_padded(binary % modulus, digit_count)
}

/// A counter as eight bytes, most significant first.
pub fn unpack_u64(v: u64) -> (r: [u8; 8])
    ensures
        r@ == counter_bytes(v),
{
    let r: [u8; 8] = [
        (v >> 56u64) as u8,
        (v >> 48u64) as u8,
        (v >> 40u64) as u8,
        (v >> 32u64) as u8,
        (v >> 24u64) as u8,
        (v >> 16u64) as u8,
        (v >> 8u64) as u8,
        v as u8,
    ];
    assert(r@ =~= counter_bytes(v));
    r
}

/// The keyed hash of a message under the chosen algorithm.
pub fn generate_hmac_bytes(algorithm: Algorithm, key: &[u8], msg: &[u8]) -> (r: Result<
    Vec<u8>,
    EngineError,
>)
    ensures
        r matches Ok(d) && d@ == mac_of(algorithm, key@, msg@) && d@.len() >= 20,
{
    let computed = match algorithm {
        Algorithm::HmacSha1 => hmac_sha1(key, msg),
        Algorithm::HmacSha256 => hmac_sha256(key, msg),
        Algorithm::HmacSha512 => hmac_sha512(key, msg),
    };
    match computed {
        Ok(d) => Ok(d),
        Err(_) => Err(EngineError::InvalidKey),
    }
}

/// The error an entry's fields cause before any hash is computed, if any.
pub open spec fn engine_error_of(key: Seq<u8>, step: u16, digits: u8) -> Option<EngineError> {
    if key.len() == 0 {
        Some(EngineError::InvalidKey)
    } else if step == 0 || digits < 1 || digits > MAX_DIGITS {
        Some(EngineError::InvalidParameters)
    } else {
        None
    }
}

fn check_parameters(entry: &CredentialEntry) -> (r: Result<(), EngineError>)
    ensures
        match r {
            Ok(()) => engine_error_of(entry.shared_secret@, entry.step_seconds, entry.digit_count)
                is None,
            Err(e) => engine_error_of(entry.shared_secret@, entry.step_seconds, entry.digit_count)
                == Some(e),
        },
{
    if entry.shared_secret.len() == 0 {
        Err(EngineError::InvalidKey)
    } else if entry.step_seconds == 0 || entry.digit_count < 1 || entry.digit_count > MAX_DIGITS {
        Err(EngineError::InvalidParameters)
    } else {
        Ok(())
    }
}

/// The HOTP code of an entry's key, algorithm and digit count for a counter.
/// No step is involved, so only the key and the digit count are checked.
pub fn hotp_code(entry: &CredentialEntry, counter: u64) -> (r: Result<String, EngineError>)
    ensures
        match engine_error_of(entry.shared_secret@, 1, entry.digit_count) {
            Some(e) => r == Err::<String, EngineError>(e),
            None => r matches Ok(s) && s@ == hotp(
                entry.algorithm,
                entry.shared_secret@,
                counter,
                entry.digit_count as nat,
            ),
        },
{
    if entry.shared_secret.len() == 0 {
        return Err(EngineError::InvalidKey);
    }
    if entry.digit_count < 1 || entry.digit_count > MAX_DIGITS {
        return Err(EngineError::InvalidParameters);
    }
    let counter_bytes = unpack_u64(counter);
    let digest = generate_hmac_bytes(entry.algorithm, entry.shared_secret.as_slice(), &counter_bytes)?;
    Ok(code_from_digest(digest.as_slice(), entry.digit_count))
}

/// The number of whole steps since the Unix epoch.
pub fn time_counter(unix_time: u64, step_seconds: u16) -> (r: u64)
    requires
        step_seconds > 0,
    ensures
        r == unix_time / step_seconds as u64,
{
    unix_time / step_seconds as u64
}

/// The TOTP code of an entry at a time in whole seconds since the Unix epoch.
pub fn generate_totp_code(unix_time: u64, entry: &CredentialEntry) -> (r: Result<String, EngineError>)
    ensures
        match engine_error_of(entry.shared_secret@, entry.step_seconds, entry.digit_count) {
            Some(e) => r == Err::<String, EngineError>(e),
            None => r matches Ok(s) && s@ == totp(
                entry.algorithm,
                entry.shared_secret@,
                entry.step_seconds,
                unix_time,
                entry.digit_count as nat,
            ),
        },
{
    check_parameters(entry)?;
    hotp_code(entry, time_counter(unix_time, entry.step_seconds))
}

} // verus!
