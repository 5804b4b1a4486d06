//! Wallet records: deterministic challenge construction and recoverable
//! signature verification against the stored challenge.

use crate::crypto::{
    eip712_digest, keccak256, recover_uncompressed_key, spec_eip712_digest, spec_keccak256,
    spec_recovered_key, spec_sig_parses,
};
use crate::error::Web3Error;
use crate::hex::{hex_decode, spec_hex_decode, spec_to_lower_hex, to_lower_hex};
use crate::text::push_char;
use vstd::prelude::*;
use vstd::string::{StrSliceExecFns, StringExecFns, StringSliceAdditionalSpecFns};
use vstd::utf8::encode_utf8;

verus! {

/// Characters kept when the serialized challenge is made stable and compact.
pub open spec fn spec_kept(c: char) -> bool {
    c != '\r' && c != '\n' && c != '\t'
}

/// `s` with carriage returns, newlines and tabs removed.
pub open spec fn spec_strip_whitespace(s: Seq<char>) -> Seq<char>
    decreases s.len(),
{
    if s.len() == 0 {
        Seq::empty()
    } else {
        let rest = spec_strip_whitespace(s.drop_last());
        if spec_kept(s.last()) {
            rest.push(s.last())
        } else {
            rest
        }
    }
}

/// Remove carriage returns, newlines and tabs from a string.
pub fn strip_whitespace(s: &str) -> (r: String)
    ensures
        r@ == spec_strip_whitespace(s@),
{
    let n = s.unicode_len();
    let mut r = String::new();
    let mut i: usize = 0;
    proof {
        assert(s@.take(0) =~= Seq::<char>::empty());
    }
    while i < n
        invariant
            i <= s@.len(),
            n == s@.len(),
            r@ == spec_strip_whitespace(s@.take(i as int)),
        decreases s@.len() - i,
    {
        let c = s.get_char(i);
        proof {
            assert(s@.take(i as int + 1).drop_last() =~= s@.take(i as int));
            assert(s@.take(i as int + 1).last() == s@[i as int]);
        }
        if !(c == '\r' || c == '\n' || c == '\t') {
            push_char(&mut r, c);
        }
        i = i + 1;
    }
    proof {
        assert(s@.take(n as int) =~= s@);
    }
    r
}

/// The challenge nonce: the lower-case hexadecimal Keccak-256 digest of the
/// address text.
pub open spec fn spec_nonce(address: Seq<char>) -> Seq<char> {
    spec_to_lower_hex(spec_keccak256(encode_utf8(address)))
}

/// The exact challenge document for an address and a template: a typed,
/// domain-separated structure carrying the address, the template text and
/// the nonce, serialized and then made stable and compact.
pub open spec fn spec_challenge(address: Seq<char>, template: Seq<char>) -> Seq<char> {
    spec_strip_whitespace(
        "{\n\"domain\": { \"name\": \"Defguard\", \"version\": \"1\" },\n\"types\": {\n    \"EIP712Domain\": [\n        { \"name\": \"name\", \"type\": \"string\" },\n        { \"name\": \"version\", \"type\": \"string\" }\n    ],\n    \"ProofOfOwnership\": [\n        { \"name\": \"wallet\", \"type\": \"address\" },\n        { \"name\": \"content\", \"type\": \"string\" },\n        { \"name\": \"nonce\", \"type\": \"string\" }\n    ]\n},\n\"primaryType\": \"ProofOfOwnership\",\n\"message\": {\n    \"wallet\": \""@
            + address
            + "\",\n    \"content\": \""@ + template + "\",\n    \"nonce\": \""@ + spec_nonce(
            address,
        ) + "\"\n}}\n"@,
    )
}

/// Canonical recovery-id value for a raw recovery byte: 0 or 27 mean 0,
/// 1 or 28 mean 1, a replay-protected value of 35 or more keeps the parity
/// of its predecessor, and everything else is rejected.
pub open spec fn spec_normalize_recovery_id(v: u8) -> Option<u8> {
    if v == 0 || v == 27 {
        Some(0u8)
    } else if v == 1 || v == 28 {
        Some(1u8)
    } else if v >= 35 {
        Some((((v - 1) as u8) & 1u8))
    } else {
        None
    }
}

/// Account identifier derived from an uncompressed public key: the low 20
/// bytes of the Keccak-256 digest of the key without its format byte.
pub open spec fn spec_derived_address(key: Seq<u8>) -> Seq<u8> {
    spec_keccak256(key.skip(1)).skip(12)
}

/// The full outcome of recoverable-signature verification: each failure mode
/// in pipeline order, and otherwise whether the recovered signer's address
/// equals the expected one.
pub open spec fn spec_verify_address(
    address: Seq<char>,
    message: Seq<char>,
    signature: Seq<char>,
) -> Result<bool, Web3Error> {
    match spec_hex_decode(encode_utf8(address)) {
        Err(_) => Err(Web3Error::Decode),
        Ok(addr) => match spec_hex_decode(encode_utf8(signature)) {
            Err(_) => Err(Web3Error::Decode),
            Ok(sig) => match spec_eip712_digest(message) {
                None => Err(Web3Error::Decode),
                Some(digest) => if sig.len() != 65 {
                    Err(Web3Error::ParseSignature)
                } else {
                    match spec_normalize_recovery_id(sig[64]) {
                        None => Err(Web3Error::InvalidRecoveryId),
                        Some(rid) => if !spec_sig_parses(sig.take(64), rid) {
                            Err(Web3Error::ParseSignature)
                        } else {
                            match spec_recovered_key(digest, sig.take(64), rid) {
                                None => Err(Web3Error::Recovery),
                                Some(key) => Ok(spec_derived_address(key) == addr),
                            }
                        },
                    }
                },
            },
        },
    }
}

/// Byte-for-byte equality of two slices.
pub fn bytes_eq(a: &[u8], b: &[u8]) -> (r: bool)
    ensures
        r == (a@ == b@),
{
    if a.len() != b.len() {
        proof {
            if a@ == b@ {
                assert(a@.len() == b@.len());
            }
        }
        return false;
    }
    let mut i: usize = 0;
    while i < a.len()
        invariant
            i <= a@.len(),
            a@.len() == b@.len(),
            forall|j: int| 0 <= j < i ==> a@[j] == b@[j],
        decreases a@.len() - i,
    {
        if a[i] != b[i] {
            proof {
                if a@ == b@ {
                    assert(a@[i as int] == b@[i as int]);
                }
            }
            return false;
        }
        i = i + 1;
    }
    proof {
        assert(a@ =~= b@);
    }
    true
}

/// A wallet's challenge state: created on the first authentication attempt,
/// updated once a valid signature is accepted.
pub struct Wallet {
    /// Surrogate key, assigned on first save.
    pub id: Option<i64>,
    /// Account identifier, stored lowercase.
    pub address: String,
    /// The exact structured-data document the wallet must sign.
    pub challenge_message: String,
    /// The signature, set only after successful verification.
    pub challenge_signature: Option<String>,
    /// Set at construction, immutable afterwards.
    pub creation_timestamp: i64,
    /// Set the moment a valid signature is accepted.
    pub validation_timestamp: Option<i64>,
}

impl Clone for Wallet {
    /// An exact copy, field for field.
    fn clone(&self) -> (r: Self)
        ensures
            r == *self,
    {
        Wallet {
            id: self.id,
            address: self.address.clone(),
            challenge_message: self.challenge_message.clone(),
            challenge_signature: match &self.challenge_signature {
                Some(s) => Some(s.clone()),
                None => None,
            },
            creation_timestamp: self.creation_timestamp,
            validation_timestamp: self.validation_timestamp,
        }
    }
}

impl Wallet {
    /// A fresh, unsaved wallet whose challenge is built from its address and
    /// the configured template.
    pub fn new(address: String) -> (r: Self)
        ensures
            r.id is None,
            r.address == address,
            r.challenge_message@ == spec_challenge(address@, crate::spec_challenge_template()),
            r.challenge_signature is None,
            r.validation_timestamp is None,
    {
        let challenge_message = Self::format_challenge(
            address.as_str(),
            crate::challenge_template(),
        );
        let now = crate::store::now_timestamp();
        Wallet {
            id: None,
            address,
            challenge_message,
            challenge_signature: None,
            creation_timestamp: now,
            validation_timestamp: None,
        }
    }

    /// Build the challenge document for an address and a template text.
    pub fn format_challenge(address: &str, challenge_message: &str) -> (r: String)
        ensures
            r@ == spec_challenge(address@, challenge_message@),
    {
        let digest = keccak256(address.as_bytes());
        let nonce = to_lower_hex(digest.as_slice());
        let mut full = String::new();
        full.append(
            "{\n\"domain\": { \"name\": \"Defguard\", \"version\": \"1\" },\n\"types\": {\n    \"EIP712Domain\": [\n        { \"name\": \"name\", \"type\": \"string\" },\n        { \"name\": \"version\", \"type\": \"string\" }\n    ],\n    \"ProofOfOwnership\": [\n        { \"name\": \"wallet\", \"type\": \"address\" },\n        { \"name\": \"content\", \"type\": \"string\" },\n        { \"name\": \"nonce\", \"type\": \"string\" }\n    ]\n},\n\"primaryType\": \"ProofOfOwnership\",\n\"message\": {\n    \"wallet\": \"",
        );
        full.append(address);
        full.append("\",\n    \"content\": \"");
        full.append(challenge_message);
        full.append("\",\n    \"nonce\": \"");
        full.append(nonce.as_str());
        full.append("\"\n}}\n");
        strip_whitespace(full.as_str())
    }

    /// Verify a recoverable signature over a structured-data document and
    /// compare the recovered signer's address with this wallet's.
    pub fn verify_address(&self, message: &str, signature: &str) -> (r: Result<bool, Web3Error>)
        ensures
            r == spec_verify_address(self.address@, message@, signature@),
    {
        let address_array = match hex_decode(self.address.as_str()) {
            Ok(v) => v,
            Err(_) => return Err(Web3Error::Decode),
        };
        let signature_array = match hex_decode(signature) {
            Ok(v) => v,
            Err(_) => return Err(Web3Error::Decode),
        };
        let digest: [u8; 32] = match eip712_digest(message) {
            Some(d) => d,
            None => return Err(Web3Error::Decode),
        };
        if signature_array.len() != 65 {
            return Err(Web3Error::ParseSignature);
        }
        let v = signature_array[64];
        let rec_id: u8 = if v == 0 || v == 27 {
            0
        } else if v == 1 || v == 28 {
            1
        } else if v >= 35 {
            (v - 1) & 1
        } else {
            return Err(Web3Error::InvalidRecoveryId);
        };
        proof {
            assert(spec_normalize_recovery_id(v) == Some(rec_id));
            assert(rec_id == 0 || rec_id == 1) by (bit_vector)
                requires
                    rec_id == 0 || rec_id == 1 || (v >= 35 && rec_id == ((v - 1) as u8) & 1u8),
            ;
        }
        let rs: &[u8] = &signature_array.as_slice()[0..64];
        proof {
            assert(rs@ =~= signature_array@.take(64));
        }
        let key: [u8; 65] = match recover_uncompressed_key(&digest, rs, rec_id) {
            Ok(k) => k,
            Err(e) => return Err(e),
        };
        let hash = keccak256(&key.as_slice()[1..65]);
        proof {
            assert(key@.subrange(1, 65) =~= key@.skip(1));
        }
        let derived: &[u8] = &hash.as_slice()[12..32];
        proof {
            assert(hash@.subrange(12, 32) =~= spec_keccak256(key@.skip(1)).skip(12));
        }
        Ok(bytes_eq(derived, address_array.as_slice()))
    }

    /// Check a signature against this wallet's stored challenge; a completed
    /// verification with a mismatched address is itself an error.
    pub fn validate_signature(&self, signature: &str) -> (r: Result<(), Web3Error>)
        ensures
            match spec_verify_address(self.address@, self.challenge_message@, signature@) {
                Ok(b) => if b {
                    r == Ok::<(), Web3Error>(())
                } else {
                    r == Err::<(), Web3Error>(Web3Error::VerifyAddress)
                },
                Err(e) => r == Err::<(), Web3Error>(e),
            },
    {
        match self.verify_address(self.challenge_message.as_str(), signature) {
            Ok(true) => Ok(()),
            Ok(false) => Err(Web3Error::VerifyAddress),
            Err(e) => Err(e),
        }
    }

    /// Record an accepted signature and the moment of validation.
    pub fn set_signature(&mut self, signature: &str)
        ensures
            final(self).id == old(self).id,
            final(self).address == old(self).address,
            final(self).challenge_message == old(self).challenge_message,
            final(self).creation_timestamp == old(self).creation_timestamp,
            final(self).challenge_signature matches Some(s) && s@ == signature@,
            final(self).validation_timestamp is Some,
    {
        self.challenge_signature = Some(signature.to_owned());
        self.validation_timestamp = Some(crate::store::now_timestamp());
    }
}

/// Determinism: one address and one template yield one challenge document,
/// byte for byte, on every call.
pub proof fn lemma_challenge_deterministic(
    a1: Seq<char>,
    t1: Seq<char>,
    a2: Seq<char>,
    t2: Seq<char>,
)
    requires
        a1 == a2,
        t1 == t2,
    ensures
        spec_challenge(a1, t1) == spec_challenge(a2, t2),
{
}

/// Recovery-id coverage: two decoded signatures that agree on their first 64
/// bytes and whose recovery bytes normalize to the same canonical value
/// verify identically, whatever the encoding of the recovery byte.
pub proof fn lemma_recovery_id_equivalence(
    address: Seq<char>,
    message: Seq<char>,
    s1: Seq<char>,
    s2: Seq<char>,
)
    requires
        spec_hex_decode(encode_utf8(s1)) is Ok,
        spec_hex_decode(encode_utf8(s2)) is Ok,
        spec_hex_decode(encode_utf8(s1))->Ok_0.len() == 65,
        spec_hex_decode(encode_utf8(s2))->Ok_0.len() == 65,
        spec_hex_decode(encode_utf8(s1))->Ok_0.take(64) == spec_hex_decode(encode_utf8(s2))->Ok_0.take(64),
        spec_normalize_recovery_id(spec_hex_decode(encode_utf8(s1))->Ok_0[64])
            == spec_normalize_recovery_id(spec_hex_decode(encode_utf8(s2))->Ok_0[64]),
        spec_normalize_recovery_id(spec_hex_decode(encode_utf8(s1))->Ok_0[64]) is Some,
    ensures
        spec_verify_address(address, message, s1) == spec_verify_address(address, message, s2),
{
}

/// Tamper sensitivity, address side: one message/signature pair verifies at
/// most one decoded address, so substituting any address that decodes
/// differently can never verify as well.
pub proof fn lemma_verify_address_unique(
    a1: Seq<char>,
    a2: Seq<char>,
    message: Seq<char>,
    signature: Seq<char>,
)
    requires
        spec_verify_address(a1, message, signature) == Ok::<bool, Web3Error>(true),
        spec_verify_address(a2, message, signature) == Ok::<bool, Web3Error>(true),
    ensures
        spec_hex_decode(encode_utf8(a1)) == spec_hex_decode(encode_utf8(a2)),
{
}

} // verus!
