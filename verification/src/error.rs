//! Error taxonomy: a small public code/message pair per failure, and the
//! finer-grained verification errors that are collapsed at the boundary.

use vstd::prelude::*;
use vstd::string::StringExecFns;

verus! {

/// Failure modes of recoverable-signature verification, in pipeline order.
#[derive(Debug, Clone, Copy, PartialEq, Eq, Structural)]
pub enum Web3Error {
    /// Malformed hexadecimal input or malformed structured-data document.
    Decode,
    /// The digest could not be framed as a signable message.
    InvalidMessage,
    /// The recovery byte is none of the accepted encodings.
    InvalidRecoveryId,
    /// The signature bytes do not form a valid compact signature.
    ParseSignature,
    /// Public-key recovery failed.
    Recovery,
    /// Verification ran but the derived address does not match.
    VerifyAddress,
}

/// Failure modes surfaced by the public operations.
#[derive(Debug, Clone, Copy, PartialEq, Eq, Structural)]
pub enum ApiError {
    /// A persistence operation failed; details are never exposed.
    Database,
    /// Completing authentication or refreshing for an unknown wallet.
    WalletNotFound,
    /// Refresh token absent, expired, used or blacklisted.
    TokenNotFound,
    /// Signature verification failed, for whatever stage-specific reason.
    SignatureIncorrect,
    /// Identity-token construction or signing failed; a server fault.
    SigningError,
    /// Client address missing from the request context.
    IpNotFound,
    /// Client address does not match the expected one.
    IpIncorrect,
}

/// The stable machine-readable tag of each error.
pub open spec fn spec_error_code(e: ApiError) -> Seq<char> {
    match e {
        ApiError::Database => "DB"@,
        ApiError::WalletNotFound => "WalletNotFound"@,
        ApiError::TokenNotFound => "TokenNotFound"@,
        ApiError::SignatureIncorrect => "SignatureIncorrect"@,
        ApiError::SigningError => "SignatureIncorrect"@,
        ApiError::IpNotFound => "IpNotFound"@,
        ApiError::IpIncorrect => "IpIncorrect"@,
    }
}

/// The human-readable message of each error.
pub open spec fn spec_error_message(e: ApiError) -> Seq<char> {
    match e {
        ApiError::Database => "Internal error"@,
        ApiError::WalletNotFound => "Wallet not found"@,
        ApiError::TokenNotFound => "Refresh token not found"@,
        ApiError::SignatureIncorrect => "Signature incorrect"@,
        ApiError::SigningError => "Signing error"@,
        ApiError::IpNotFound => "Client ip not found"@,
        ApiError::IpIncorrect => "Ip not matching"@,
    }
}

impl ApiError {
    /// Stable tag an API consumer can branch on without parsing prose.
    pub fn code(&self) -> (r: &'static str)
        ensures
            r@ == spec_error_code(*self),
    {
        match self {
            ApiError::Database => "DB",
            ApiError::WalletNotFound => "WalletNotFound",
            ApiError::TokenNotFound => "TokenNotFound",
            ApiError::SignatureIncorrect => "SignatureIncorrect",
            ApiError::SigningError => "SignatureIncorrect",
            ApiError::IpNotFound => "IpNotFound",
            ApiError::IpIncorrect => "IpIncorrect",
        }
    }

    /// Descriptive message, decoupled from the stable tag.
    pub fn message(&self) -> (r: String)
        ensures
            r@ == spec_error_message(*self),
    {
        match self {
            ApiError::Database => String::from_str("Internal error"),
            ApiError::WalletNotFound => String::from_str("Wallet not found"),
            ApiError::TokenNotFound => String::from_str("Refresh token not found"),
            ApiError::SignatureIncorrect => String::from_str("Signature incorrect"),
            ApiError::SigningError => String::from_str("Signing error"),
            ApiError::IpNotFound => String::from_str("Client ip not found"),
            ApiError::IpIncorrect => String::from_str("Ip not matching"),
        }
    }
}

} // verus!
