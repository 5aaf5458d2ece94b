//! Error type shared by every module of the library.
use vstd::prelude::*;

verus! {

/// Everything that can go wrong in key handling, encryption and (de)serialization.
#[derive(Debug)]
pub enum RokError {
    DerivationError(String),
    EncryptionError(String),
    DecryptionError(String),
    SignatureVerificationFailed,
    InvalidScope(String),
    NoMatchingAccessEntry(String),
    KeyNotFound(String),
    KeyRevoked(String),
    SerializationError(String),
    InvalidKeyMaterial,
    ScopeMismatch { key_scope: String, data_scope: String },
    EncodingError(String),
    InvalidChecksum,
    InvalidTypeTag { expected: u8, got: u8 },
    StorageError(String),
}

/// Result alias used throughout the library.
pub type Result<T> = core::result::Result<T, RokError>;

/// Decimal digits of a byte value, most significant first.
pub open spec fn decimal_digits(v: nat) -> Seq<char>
    decreases v,
{
    if v < 10 {
        seq![digit_char(v)]
    } else {
        decimal_digits(v / 10).push(digit_char(v % 10))
    }
}

/// The ASCII character of a single decimal digit.
pub open spec fn digit_char(d: nat) -> char {
    if d == 0 { '0' }
    else if d == 1 { '1' }
    else if d == 2 { '2' }
    else if d == 3 { '3' }
    else if d == 4 { '4' }
    else if d == 5 { '5' }
    else if d == 6 { '6' }
    else if d == 7 { '7' }
    else if d == 8 { '8' }
    else { '9' }
}

fn digit_str(d: u8) -> (s: &'static str)
    requires
        d < 10,
    ensures
        s@ == seq![digit_char(d as nat)],
{
    proof {
        reveal_strlit("0");
        reveal_strlit("1");
        reveal_strlit("2");
        reveal_strlit("3");
        reveal_strlit("4");
        reveal_strlit("5");
        reveal_strlit("6");
        reveal_strlit("7");
        reveal_strlit("8");
        reveal_strlit("9");
    }
    if d == 0 {
        "0"
    } else if d == 1 {
        "1"
    } else if d == 2 {
        "2"
    } else if d == 3 {
        "3"
    } else if d == 4 {
        "4"
    } else if d == 5 {
        "5"
    } else if d == 6 {
        "6"
    } else if d == 7 {
        "7"
    } else if d == 8 {
        "8"
    } else {
        "9"
    }
}

/// Decimal rendering of a byte, as `{}` formatting prints it.
pub fn u8_to_decimal(v: u8) -> (s: String)
    ensures
        s@ == decimal_digits(v as nat),
{
    if v < 10 {
        String::from_str(digit_str(v))
    } else if v < 100 {
        let mut s = String::from_str(digit_str(v / 10));
        s.append(digit_str(v % 10));
        assert(decimal_digits((v / 10) as nat) == seq![digit_char((v / 10) as nat)]);
        s
    } else {
        let mut s = String::from_str(digit_str(v / 100));
        s.append(digit_str((v / 10) % 10));
        s.append(digit_str(v % 10));
        assert(decimal_digits((v / 100) as nat) == seq![digit_char((v / 100) as nat)]);
        assert(((v / 10) as nat) / 10 == (v / 100) as nat);
        assert(decimal_digits((v / 10) as nat) == seq![digit_char((v / 100) as nat)].push(
            digit_char(((v / 10) % 10) as nat)));
        s
    }
}

/// The human-readable text of an error.
pub open spec fn error_text(e: RokError) -> Seq<char> {
    match e {
        RokError::DerivationError(m) => "key derivation failed: "@ + m@,
        RokError::EncryptionError(m) => "encryption failed: "@ + m@,
        RokError::DecryptionError(m) => "decryption failed: "@ + m@,
        RokError::SignatureVerificationFailed => "signature verification failed"@,
        RokError::InvalidScope(m) => "invalid scope path: "@ + m@,
        RokError::NoMatchingAccessEntry(m) => "no matching access entry for key id "@ + m@,
        RokError::KeyNotFound(m) => "key not found: "@ + m@,
        RokError::KeyRevoked(m) => "key revoked: "@ + m@,
        RokError::SerializationError(m) => "serialization error: "@ + m@,
        RokError::InvalidKeyMaterial => "invalid key material"@,
        RokError::ScopeMismatch { key_scope, data_scope } => "scope mismatch: key scope '"@
            + key_scope@ + "' cannot access data at scope '"@ + data_scope@ + "'"@,
        RokError::EncodingError(m) => "encoding error: "@ + m@,
        RokError::InvalidChecksum => "invalid checksum"@,
        RokError::InvalidTypeTag { expected, got } => "invalid type tag: expected "@
            + decimal_digits(expected as nat) + ", got "@ + decimal_digits(got as nat),
        RokError::StorageError(m) => "storage error: "@ + m@,
    }
}

fn prefixed(prefix: &str, m: &String) -> (s: String)
    ensures
        s@ == prefix@ + m@,
{
    let mut s = String::from_str(prefix);
    s.append(m.as_str());
    s
}

impl RokError {
    /// The human-readable text of this error.
    pub fn message(&self) -> (s: String)
        ensures
            s@ == error_text(*self),
    {
        match self {
            RokError::DerivationError(m) => prefixed("key derivation failed: ", m),
            RokError::EncryptionError(m) => prefixed("encryption failed: ", m),
            RokError::DecryptionError(m) => prefixed("decryption failed: ", m),
            RokError::SignatureVerificationFailed => String::from_str(
                "signature verification failed",
            ),
            RokError::InvalidScope(m) => prefixed("invalid scope path: ", m),
            RokError::NoMatchingAccessEntry(m) => prefixed(
                "no matching access entry for key id ",
                m,
            ),
            RokError::KeyNotFound(m) => prefixed("key not found: ", m),
            RokError::KeyRevoked(m) => prefixed("key revoked: ", m),
            RokError::SerializationError(m) => prefixed("serialization error: ", m),
            RokError::InvalidKeyMaterial => String::from_str("invalid key material"),
            RokError::ScopeMismatch { key_scope, data_scope } => {
                let mut s = prefixed("scope mismatch: key scope '", key_scope);
                s.append("' cannot access data at scope '");
                s.append(data_scope.as_str());
                s.append("'");
                s
            },
            RokError::EncodingError(m) => prefixed("encoding error: ", m),
            RokError::InvalidChecksum => String::from_str("invalid checksum"),
            RokError::InvalidTypeTag { expected, got } => {
                let mut s = String::from_str("invalid type tag: expected ");
                let e = u8_to_decimal(*expected);
                s.append(e.as_str());
                s.append(", got ");
                let g = u8_to_decimal(*got);
                s.append(g.as_str());
                s
            },
            RokError::StorageError(m) => prefixed("storage error: ", m),
        }
    }
}

} // verus!
