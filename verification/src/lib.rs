//! Wallet-based authentication core: challenge construction, recoverable
//! signature verification, identity-token issuance and validation, and
//! refresh-token rotation.

use vstd::prelude::*;

pub mod auth;
pub mod crypto;
pub mod error;
pub mod hex;
pub mod json;
pub mod jwt;
pub mod store;
pub mod text;
pub mod validate;
pub mod wallet;

verus! {

/// The text a wallet owner is asked to sign, embedded in every challenge.
pub open spec fn spec_challenge_template() -> Seq<char> {
    "Please read this carefully:\n\nClick to sign to prove you are in possesion of your private key to the account.\nThis request will not trigger a blockchain transaction or cost any gas fees."@
}

/// The challenge template used when a wallet record is created.
pub fn challenge_template() -> (r: &'static str)
    ensures
        r@ == spec_challenge_template(),
{
    "Please read this carefully:\n\nClick to sign to prove you are in possesion of your private key to the account.\nThis request will not trigger a blockchain transaction or cost any gas fees."
}

} // verus!
