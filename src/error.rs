//! Why a hash could not be derived.
use vstd::prelude::*;

verus! {

/// The ways in which deriving a hash can fail.
#[derive(Clone, Copy, Debug, PartialEq, Eq, Structural)]
pub enum CryptError {
    /// The key is longer than the scheme allows.
    KeyTooLong,
    /// The setting names no supported scheme.
    UnknownOrUnsupportedScheme,
    /// The salt is absent or empty.
    MissingSalt,
    /// The salt holds `$`, `:` or a newline.
    UnsafeSaltCharacter,
    /// The rounds clause is not a decimal number.
    RoundsMalformed,
    /// The rounds clause does not fit in a 64-bit integer.
    RoundsOverflow,
    /// The rounds clause asks for more rounds than the scheme allows.
    RoundsTooLarge,
    /// The hash string would not be valid UTF-8.
    EncodingFailure,
}

impl CryptError {
    /// A short description of the error.
    pub fn message(&self) -> (r: &'static str) {
        match self {
            CryptError::KeyTooLong => "Key too long",
            CryptError::UnknownOrUnsupportedScheme => "Scheme not supported, use a modern hash instead",
            CryptError::MissingSalt => "Salt missing",
            CryptError::UnsafeSaltCharacter => "Unsafe character found in salt",
            CryptError::RoundsMalformed => "Malformed rounds setting",
            CryptError::RoundsOverflow => "Rounds value out of range",
            CryptError::RoundsTooLarge => "Too many rounds",
            CryptError::EncodingFailure => "Hash is not valid UTF-8",
        }
    }
}

} // verus!
