//! Time-based one-time passwords for a set of named credentials, with a
//! compact binary encoding of each credential and an in-memory model of the
//! secure key-value namespace that holds them.

pub mod codec;
pub mod entry;
pub mod mac;
pub mod otp;
pub mod store;
