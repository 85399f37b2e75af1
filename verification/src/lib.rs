//! A local TOTP credential manager core: an encrypted-at-rest account store,
//! an RFC 6238 code generator with a short-secret padding policy, and an
//! import parser for `otpauth://totp` URIs and migration batch payloads.

pub mod accounts;
pub mod crypto;
pub mod errors;
pub mod parsing;
pub mod totp;
