//! The credential entry, its mathematical model and its validation rules.

use vstd::prelude::*;

verus! {

/// Largest number of digits a code may have: the truncated value has 31 bits,
/// so a modulus of ten digits or more would exceed it.
pub const MAX_DIGITS: u8 = 9;

/// Largest byte length of a variable-length field, fixed by its 32-bit length prefix.
pub const MAX_FIELD_LEN: u64 = 0xffff_ffff;

/// The keyed hash a credential uses.
#[derive(Debug, Clone, Copy, PartialEq, Eq, Structural)]
pub enum Algorithm {
    HmacSha1,
    HmacSha256,
    HmacSha512,
}

/// Why a set of fields does not make a credential entry.
#[derive(Debug, Clone, Copy, PartialEq, Eq, Structural)]
pub enum ValidationError {
    EmptyName,
    ZeroStep,
    EmptySecret,
    DigitCount,
    FieldTooLong,
}

/// One configured one-time-password source.
#[derive(Debug, Clone, PartialEq, Eq)]
pub struct CredentialEntry {
    pub name: String,
    pub step_seconds: u16,
    pub shared_secret: Vec<u8>,
    pub digit_count: u8,
    pub algorithm: Algorithm,
}

/// The mathematical value of a credential entry.
pub ghost struct EntryModel {
    pub name: Seq<char>,
    pub step_seconds: u16,
    pub shared_secret: Seq<u8>,
    pub digit_count: u8,
    pub algorithm: Algorithm,
}

/// UTF-8 bytes of a name.
pub open spec fn name_bytes(name: Seq<char>) -> Seq<u8> {
    vstd::utf8::encode_utf8(name)
}

/// The first rule that the fields break, checked in a fixed order, if any.
pub open spec fn validation_of(m: EntryModel) -> Option<ValidationError> {
    if m.name.len() == 0 {
        Some(ValidationError::EmptyName)
    } else if m.step_seconds == 0 {
        Some(ValidationError::ZeroStep)
    } else if m.shared_secret.len() == 0 {
        Some(ValidationError::EmptySecret)
    } else if m.digit_count < 1 || m.digit_count > MAX_DIGITS {
        Some(ValidationError::DigitCount)
    } else if name_bytes(m.name).len() > MAX_FIELD_LEN || m.shared_secret.len() > MAX_FIELD_LEN {
        Some(ValidationError::FieldTooLong)
    } else {
        None
    }
}

impl EntryModel {
    pub open spec fn valid(self) -> bool {
        validation_of(self) is None
    }
}

impl View for CredentialEntry {
    type V = EntryModel;

    open spec fn view(&self) -> EntryModel {
        EntryModel {
            name: self.name@,
            step_seconds: self.step_seconds,
            shared_secret: self.shared_secret@,
            digit_count: self.digit_count,
            algorithm: self.algorithm,
        }
    }
}

impl CredentialEntry {
    /// Builds an entry from its fields, refusing fields that break a rule.
    pub fn new(
        name: String,
        step_seconds: u16,
        shared_secret: Vec<u8>,
        digit_count: u8,
        algorithm: Algorithm,
    ) -> (r: Result<CredentialEntry, ValidationError>)
        ensures
            ({
                let m = EntryModel {
                    name: name@,
                    step_seconds,
                    shared_secret: shared_secret@,
                    digit_count,
                    algorithm,
                };
                match r {
                    Ok(e) => e@ == m && m.valid(),
                    Err(v) => validation_of(m) == Some(v),
                }
            }),
    {
        let e = CredentialEntry { name, step_seconds, shared_secret, digit_count, algorithm };
        match e.validate() {
            Ok(()) => Ok(e),
            Err(v) => Err(v),
        }
    }

    /// The first rule that this entry breaks, if any.
    pub fn validate(&self) -> (r: Result<(), ValidationError>)
        ensures
            match r {
                Ok(()) => self@.valid(),
                Err(v) => validation_of(self@) == Some(v),
            },
    {
        if self.name.as_str().is_empty() {
            Err(ValidationError::EmptyName)
        } else if self.step_seconds == 0 {
            Err(ValidationError::ZeroStep)
        } else if self.shared_secret.len() == 0 {
            Err(ValidationError::EmptySecret)
        } else if self.digit_count < 1 || self.digit_count > MAX_DIGITS {
            Err(ValidationError::DigitCount)
        } else if self.name.as_str().as_bytes().len() as u64 > MAX_FIELD_LEN
            || self.shared_secret.len() as u64 > MAX_FIELD_LEN {
            Err(ValidationError::FieldTooLong)
        } else {
            Ok(())
        }
    }
}

} // verus!
