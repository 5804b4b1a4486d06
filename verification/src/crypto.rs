//! Cryptographic primitives behind the signature verifier: Keccak-256
//! hashing, structured-data digests, and public-key recovery. The outside
//! calls stand behind trusted wrappers; everything around them is verified.

use crate::error::Web3Error;
use crate::text::dec_digits;
use vstd::prelude::*;

verus! {

/// Keccak-256 digest of a byte string; always 32 bytes.
pub uninterp spec fn spec_keccak256(data: Seq<u8>) -> Seq<u8>;

/// Relies on tiny_keccak's `Keccak::v256` with `update` and `finalize`: the
/// digest depends on the input bytes alone and fills exactly 32 bytes.
#[verifier::external_body]
pub fn keccak256(bytes: &[u8]) -> (r: [u8; 32])
    ensures
        r@ == spec_keccak256(bytes@),
{
    let mut output = [0u8; 32];
    let mut hasher = tiny_keccak::Keccak::v256();
    tiny_keccak::Hasher::update(&mut hasher, bytes);
    tiny_keccak::Hasher::finalize(hasher, &mut output);
    output
}

/// Prefix of a presigned personal message: `"\x19Ethereum Signed Message:\n"`.
pub open spec fn spec_eth_prefix() -> Seq<u8> {
    seq![
        0x19u8,
        0x45u8,
        0x74u8,
        0x68u8,
        0x65u8,
        0x72u8,
        0x65u8,
        0x75u8,
        0x6du8,
        0x20u8,
        0x53u8,
        0x69u8,
        0x67u8,
        0x6eu8,
        0x65u8,
        0x64u8,
        0x20u8,
        0x4du8,
        0x65u8,
        0x73u8,
        0x73u8,
        0x61u8,
        0x67u8,
        0x65u8,
        0x3au8,
        0x0au8,
    ]
}

/// A message framed for personal signing: prefix, decimal length, body.
pub open spec fn spec_eth_message(m: Seq<u8>) -> Seq<u8> {
    spec_eth_prefix() + dec_digits(m.len()) + m
}

/// Keccak-256 digest of a message framed for personal signing.
pub fn hash_message(message: &[u8]) -> (r: [u8; 32])
    ensures
        r@ == spec_keccak256(spec_eth_message(message@)),
{
    let mut buf: Vec<u8> = vec![
        0x19u8,
        0x45,
        0x74,
        0x68,
        0x65,
        0x72,
        0x65,
        0x75,
        0x6d,
        0x20,
        0x53,
        0x69,
        0x67,
        0x6e,
        0x65,
        0x64,
        0x20,
        0x4d,
        0x65,
        0x73,
        0x73,
        0x61,
        0x67,
        0x65,
        0x3a,
        0x0a,
    ];
    proof {
        assert(buf@ =~= spec_eth_prefix());
    }
    let mut len_digits = crate::text::format_decimal(message.len() as u64);
    buf.append(&mut len_digits);
    buf.extend_from_slice(message);
    proof {
        assert(buf@ =~= spec_eth_message(message@));
    }
    keccak256(buf.as_slice())
}

/// Digest that signing a structured-data document binds, or `None` when the
/// text is not a well-formed document; a function of the text alone.
pub uninterp spec fn spec_eip712_digest(message: Seq<char>) -> Option<Seq<u8>>;

/// Relies on `serde_json::from_str::<TypedData>` and ethers-core's
/// `Eip712::encode_eip712`: whether the text parses as a typed-data document
/// and the 32-byte digest it then hashes to depend on the text alone.
#[verifier::external_body]
pub fn eip712_digest(message: &str) -> (r: Option<[u8; 32]>)
    ensures
        match r {
            Some(d) => spec_eip712_digest(message@) == Some(d@),
            None => spec_eip712_digest(message@) == None::<Seq<u8>>,
        },
{
    let typed_data: ethers_core::types::transaction::eip712::TypedData =
        match serde_json::from_str(message) {
            Ok(t) => t,
            Err(_) => return None,
        };
    match ethers_core::types::transaction::eip712::Eip712::encode_eip712(&typed_data) {
        Ok(digest) => Some(digest),
        Err(_) => None,
    }
}

/// Do 64 compact bytes and a recovery id form a parsable signature?
pub uninterp spec fn spec_sig_parses(rs: Seq<u8>, rec_id: u8) -> bool;

/// The uncompressed public key that recovery yields for a digest, compact
/// signature bytes and recovery id, or `None` when recovery fails; recovery
/// is a function of these inputs alone.
pub uninterp spec fn spec_recovered_key(digest: Seq<u8>, rs: Seq<u8>, rec_id: u8) -> Option<
    Seq<u8>,
>;

/// Relies on secp256k1: `RecoveryId::from_i32` accepts 0 and 1;
/// `RecoverableSignature::from_compact` accepts exactly the parsable 64-byte
/// encodings (`spec_sig_parses`); `Secp256k1::recover_ecdsa` then yields a
/// key determined by digest, signature bytes and recovery id alone, whose
/// `serialize_uncompressed` form has 65 bytes (`spec_recovered_key`).
#[verifier::external_body]
pub fn recover_uncompressed_key(digest: &[u8; 32], rs: &[u8], rec_id: u8) -> (r: Result<
    [u8; 65],
    Web3Error,
>)
    requires
        rs@.len() == 64,
        rec_id == 0 || rec_id == 1,
    ensures
        match r {
            Ok(k) => spec_sig_parses(rs@, rec_id) && spec_recovered_key(digest@, rs@, rec_id)
                == Some(k@),
            Err(e) => (e == Web3Error::ParseSignature && !spec_sig_parses(rs@, rec_id)) || (e
                == Web3Error::Recovery && spec_sig_parses(rs@, rec_id) && spec_recovered_key(
                digest@,
                rs@,
                rec_id,
            ) == None::<Seq<u8>>),
        },
{
    let rid = match secp256k1::ecdsa::RecoveryId::from_i32(rec_id as i32) { Ok(r) => r, Err(_) => return Err(Web3Error::ParseSignature) };
    let sig = match secp256k1::ecdsa::RecoverableSignature::from_compact(rs, rid) { Ok(s) => s, Err(_) => return Err(Web3Error::ParseSignature) };
    let msg = match secp256k1::Message::from_digest_slice(digest) { Ok(m) => m, Err(_) => return Err(Web3Error::ParseSignature) };
    match secp256k1::Secp256k1::new().recover_ecdsa(&msg, &sig) {
        Ok(key) => Ok(key.serialize_uncompressed()),
        Err(_) => Err(Web3Error::Recovery),
    }
}

} // verus!
