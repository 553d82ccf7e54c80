//! The binary form of a credential entry.
//!
//! Layout, every integer big-endian:
//! one byte of algorithm tag (1 for HMAC-SHA1, 2 for HMAC-SHA256, 3 for
//! HMAC-SHA512), two bytes of step, one byte of digit count, four bytes of
//! name length, the name in UTF-8, four bytes of secret length, the secret.

use crate::entry::{
    name_bytes, validation_of, Algorithm, CredentialEntry, EntryModel, ValidationError,
    MAX_DIGITS, MAX_FIELD_LEN,
};
use vstd::prelude::*;
use vstd::slice::{slice_subrange, slice_to_vec};
use vstd::utf8::{decode_utf8, encode_utf8, valid_utf8};

verus! {

broadcast use vstd::utf8::group_utf8_lib;

/// Why a byte buffer does not hold a credential entry.
#[derive(Debug, Clone, Copy, PartialEq, Eq, Structural)]
pub enum DecodeError {
    /// The buffer ends before a field does.
    Truncated,
    /// The algorithm tag names no known algorithm.
    UnknownAlgorithm,
    /// The name bytes are not UTF-8.
    InvalidName,
    /// Bytes follow the last field.
    TrailingBytes,
    /// The fields break a rule of credential entries.
    Invalid(ValidationError),
}

pub open spec fn algorithm_tag(a: Algorithm) -> u8 {
    match a {
        Algorithm::HmacSha1 => 1,
        Algorithm::HmacSha256 => 2,
        Algorithm::HmacSha512 => 3,
    }
}

pub open spec fn algorithm_of_tag(t: u8) -> Option<Algorithm> {
    if t == 1 {
        Some(Algorithm::HmacSha1)
    } else if t == 2 {
        Some(Algorithm::HmacSha256)
    } else if t == 3 {
        Some(Algorithm::HmacSha512)
    } else {
        None
    }
}

pub open spec fn be16(v: nat) -> Seq<u8> {
    seq![(v / 0x100) as u8, (v % 0x100) as u8]
}

pub open spec fn be32(v: nat) -> Seq<u8> {
    seq![
        (v / 0x100_0000) as u8,
        ((v / 0x1_0000) % 0x100) as u8,
        ((v / 0x100) % 0x100) as u8,
        (v % 0x100) as u8,
    ]
}

pub open spec fn read_be16(b: Seq<u8>, i: int) -> nat {
    (b[i] as nat) * 0x100 + (b[i + 1] as nat)
}

pub open spec fn read_be32(b: Seq<u8>, i: int) -> nat {
    (b[i] as nat) * 0x100_0000 + (b[i + 1] as nat) * 0x1_0000 + (b[i + 2] as nat) * 0x100 + (
    b[i + 3] as nat)
}

/// Both variable-length fields fit their 32-bit length prefixes.
pub open spec fn fits_wire(m: EntryModel) -> bool {
    name_bytes(m.name).len() <= MAX_FIELD_LEN && m.shared_secret.len() <= MAX_FIELD_LEN
}

/// The bytes that stand for an entry.
pub open spec fn encoding(m: EntryModel) -> Seq<u8> {
    seq![algorithm_tag(m.algorithm)] + be16(m.step_seconds as nat) + seq![m.digit_count] + be32(
        name_bytes(m.name).len(),
    ) + name_bytes(m.name) + be32(m.shared_secret.len()) + m.shared_secret
}

/// What a byte buffer decodes to: the entry, or the first fault met reading
/// the fields in order.
pub open spec fn parse_entry(b: Seq<u8>) -> Result<EntryModel, DecodeError> {
    if b.len() < 8 {
        Err(DecodeError::Truncated)
    } else if algorithm_of_tag(b[0]) is None {
        Err(DecodeError::UnknownAlgorithm)
    } else {
        let nl = read_be32(b, 4) as int;
        if b.len() < 12 + nl {
            Err(DecodeError::Truncated)
        } else if !valid_utf8(b.subrange(8, 8 + nl)) {
            Err(DecodeError::InvalidName)
        } else {
            let sl = read_be32(b, 8 + nl) as int;
            if b.len() < 12 + nl + sl {
                Err(DecodeError::Truncated)
            } else if b.len() > 12 + nl + sl {
                Err(DecodeError::TrailingBytes)
            } else {
                let m = EntryModel {
                    name: decode_utf8(b.subrange(8, 8 + nl)),
                    step_seconds: read_be16(b, 1) as u16,
                    shared_secret: b.subrange(12 + nl, 12 + nl + sl),
                    digit_count: b[3],
                    algorithm: algorithm_of_tag(b[0])->Some_0,
                };
                match validation_of(m) {
                    Some(v) => Err(DecodeError::Invalid(v)),
                    None => Ok(m),
                }
            }
        }
    }
}

proof fn lemma_be16(v: nat)
    requires
        v < 0x1_0000,
    ensures
        read_be16(be16(v), 0) == v,
{
}

proof fn lemma_be32(v: nat)
    requires
        v <= MAX_FIELD_LEN,
    ensures
        read_be32(be32(v), 0) == v,
{
}

/// Decoding the encoding of a valid entry gives that entry back.
pub proof fn lemma_round_trip(m: EntryModel)
    requires
        m.valid(),
    ensures
        parse_entry(encoding(m)) == Ok::<EntryModel, DecodeError>(m),
{
    let b = encoding(m);
    let nb = name_bytes(m.name);
    let nl = nb.len() as int;
    let sl = m.shared_secret.len() as int;
    lemma_be16(m.step_seconds as nat);
    lemma_be32(nl as nat);
    lemma_be32(sl as nat);
    assert(b.len() == 12 + nl + sl);
    assert(b.subrange(1, 3) =~= be16(m.step_seconds as nat));
    assert(read_be16(b, 1) == read_be16(b.subrange(1, 3), 0));
    assert(b.subrange(4, 8) =~= be32(nl as nat));
    assert(read_be32(b, 4) == read_be32(b.subrange(4, 8), 0));
    assert(b.subrange(8, 8 + nl) =~= nb);
    assert(b.subrange(8 + nl, 12 + nl) =~= be32(sl as nat));
    assert(read_be32(b, 8 + nl) == read_be32(b.subrange(8 + nl, 12 + nl), 0));
    assert(b.subrange(12 + nl, 12 + nl + sl) =~= m.shared_secret);
    assert(decode_utf8(nb) == m.name);
    assert(algorithm_of_tag(b[0]) == Some(m.algorithm));
}

proof fn lemma_read_be16(b: Seq<u8>, i: int)
    requires
        0 <= i,
        i + 2 <= b.len(),
    ensures
        be16(read_be16(b, i)) =~= b.subrange(i, i + 2),
{
}

proof fn lemma_read_be32(b: Seq<u8>, i: int)
    requires
        0 <= i,
        i + 4 <= b.len(),
    ensures
        be32(read_be32(b, i)) =~= b.subrange(i, i + 4),
{
}

/// Whatever decodes is a valid entry whose encoding is exactly the buffer.
pub proof fn lemma_decoded_is_canonical(b: Seq<u8>)
    ensures
        parse_entry(b) matches Ok(m) ==> m.valid() && encoding(m) == b,
{
    if let Ok(m) = parse_entry(b) {
        let nl = read_be32(b, 4) as int;
        let sl = read_be32(b, 8 + nl) as int;
        let nb = b.subrange(8, 8 + nl);
        assert(encode_utf8(decode_utf8(nb)) == nb);
        lemma_read_be16(b, 1);
        lemma_read_be32(b, 4);
        lemma_read_be32(b, 8 + nl);
        let e = encoding(m);
        assert(e.len() == b.len());
        assert forall|k: int| 0 <= k < b.len() implies e[k] == b[k] by {
            if k < 4 {
            } else if k < 8 {
                assert(b.subrange(4, 8)[k - 4] == b[k]);
            } else if k < 8 + nl {
                assert(nb[k - 8] == b[k]);
            } else if k < 12 + nl {
                assert(b.subrange(8 + nl, 12 + nl)[k - 8 - nl] == b[k]);
            } else {
            }
        }
        assert(e =~= b);
    }
}

/// Nothing out of range is clamped: a digit count above the largest, or an
/// empty secret, makes a set of fields invalid, and no buffer decodes to such
/// an entry.
pub proof fn lemma_no_clamping(m: EntryModel, b: Seq<u8>)
    ensures
        m.digit_count > MAX_DIGITS || m.shared_secret.len() == 0 ==> validation_of(m) is Some,
        parse_entry(b) matches Ok(d) ==> 1 <= d.digit_count <= MAX_DIGITS && d.shared_secret.len()
            > 0,
{
}

/// Relies on `String::from_utf8`: it succeeds exactly on well-formed UTF-8,
/// and then the string's bytes are the given ones.
#[verifier::external_body]
fn string_from_utf8(bytes: Vec<u8>) -> (r: Option<String>)
    ensures
        r is Some <==> valid_utf8(bytes@),
        r matches Some(s) ==> encode_utf8(s@) == bytes@,
{
    String::from_utf8(bytes).ok()
}

fn push_be32(out: &mut Vec<u8>, v: u32)
    ensures
        final(out)@ == old(out)@ + be32(v as nat),
{
    out.push((v / 0x100_0000) as u8);
    out.push(((v / 0x1_0000) % 0x100) as u8);
    out.push(((v / 0x100) % 0x100) as u8);
    out.push((v % 0x100) as u8);
    assert(final(out)@ =~= old(out)@ + be32(v as nat));
}

fn push_bytes(out: &mut Vec<u8>, b: &[u8])
    ensures
        final(out)@ == old(out)@ + b@,
{
    let ghost start = out@;
    let mut i: usize = 0;
    while i < b.len()
        invariant
            i <= b@.len(),
            out@ =~= start + b@.subrange(0, i as int),
        decreases b@.len() - i,
    {
        out.push(b[i]);
        i = i + 1;
    }
    assert(b@.subrange(0, b@.len() as int) =~= b@);
}

/// The bytes that stand for an entry.
pub fn encode(entry: &CredentialEntry) -> (r: Vec<u8>)
    requires
        fits_wire(entry@),
    ensures
        r@ == encoding(entry@),
{
    let name = entry.name.as_str().as_bytes();
    let tag: u8 = match entry.algorithm {
        Algorithm::HmacSha1 => 1,
        Algorithm::HmacSha256 => 2,
        Algorithm::HmacSha512 => 3,
    };
    let mut out: Vec<u8> = Vec::new();
    out.push(tag);
    out.push((entry.step_seconds / 0x100) as u8);
    out.push((entry.step_seconds % 0x100) as u8);
    out.push(entry.digit_count);
    push_be32(&mut out, name.len() as u32);
    push_bytes(&mut out, name);
    push_be32(&mut out, entry.shared_secret.len() as u32);
    push_bytes(&mut out, entry.shared_secret.as_slice());
    assert(out@ =~= encoding(entry@));
    out
}

fn read_u32(b: &[u8], i: usize) -> (r: u32)
    requires
        i + 4 <= b@.len(),
    ensures
        r as nat == read_be32(b@, i as int),
{
    (b[i] as u32) * 0x100_0000 + (b[i + 1] as u32) * 0x1_0000 + (b[i + 2] as u32) * 0x100 + (b[i
        + 3] as u32)
}

/// The entry that a byte buffer holds, or the first fault met reading it.
pub fn decode(bytes: &[u8]) -> (r: Result<CredentialEntry, DecodeError>)
    ensures
        match r {
            Ok(e) => parse_entry(bytes@) == Ok::<EntryModel, DecodeError>(e@),
            Err(x) => parse_entry(bytes@) == Err::<EntryModel, DecodeError>(x),
        },
{
    let len = bytes.len();
    if len < 8 {
        return Err(DecodeError::Truncated);
    }
    let algorithm = match bytes[0] {
        1 => Algorithm::HmacSha1,
        2 => Algorithm::HmacSha256,
        3 => Algorithm::HmacSha512,
        _ => {
            return Err(DecodeError::UnknownAlgorithm);
        },
    };
    let name_len = read_u32(bytes, 4) as usize;
    if len - 8 < name_len || len - 8 - name_len < 4 {
        return Err(DecodeError::Truncated);
    }
    let name_end = 8 + name_len;
    let name = match string_from_utf8(slice_to_vec(slice_subrange(bytes, 8, name_end))) {
        Some(s) => s,
        None => {
            return Err(DecodeError::InvalidName);
        },
    };
    let secret_len = read_u32(bytes, name_end) as usize;
    let secret_start = name_end + 4;
    if len - secret_start < secret_len {
        return Err(DecodeError::Truncated);
    }
    if len - secret_start > secret_len {
        return Err(DecodeError::TrailingBytes);
    }
    let shared_secret = slice_to_vec(slice_subrange(bytes, secret_start, len));
    let step_seconds: u16 = (bytes[1] as u16) * 0x100 + (bytes[2] as u16);
    let entry = CredentialEntry {
        name,
        step_seconds,
        shared_secret,
        digit_count: bytes[3],
        algorithm,
    };
    match entry.validate() {
        Ok(()) => Ok(entry),
        Err(v) => Err(DecodeError::Invalid(v)),
    }
}

} // verus!
