use avanguard::challenge_template;
use avanguard::crypto::{hash_message, keccak256};
use avanguard::error::Web3Error;
use avanguard::hex::{hex_decode, to_lower_hex, HexError};
use avanguard::wallet::Wallet;
use tiny_keccak::Hasher;

#[test]
fn test_verify_address() {
    for (address, signature) in [
        ("0x6cD15DA14A4Ef26047f1D7858D7A82b59DDCa102",
        "0xfb812c61b3d5f3ea729a049b4f14c28c07938367c91062c959150e1a3273f07772f162c5abf8312be39c3a6640c47e02866bcd19b5545bc5650d5870547a1a8f1c"),
        ("0x8AEF669452465635355923E4Dc80990aEAEE3b8d",
        "0xefa7641e06c0d35e9386a3d97d50c5a2fffc7c5838ea42647093417b62bd1dc830ce8ecea3f9173190ee6c215a8a423fd1110caba06b6dc474e0792f802dfdc31b"),
        ("0xE8e659AD9E99afd41f97015Cb2E2a96dD7456fA0",
        "0x47d3eddfb2ed3ad1776c704fbe90737286ede2931c9e561abe6ce33606f411a00eafc25ec540e5db7ea82364e7df1e4722a916a828f02746a28773ae0e7bf3f31b"),
    ] {
        let message = Wallet::format_challenge(address, challenge_template());
        let wallet = Wallet::new(address.into());
        let result = wallet.verify_address(&message, signature).unwrap();
        assert!(result);
    }
}

#[test]
fn test_challenge_is_deterministic() {
    let address = "0x6cD15DA14A4Ef26047f1D7858D7A82b59DDCa102";
    let a = Wallet::format_challenge(address, challenge_template());
    let b = Wallet::format_challenge(address, challenge_template());
    assert_eq!(a, b);
    let w1 = Wallet::new(address.to_string());
    let w2 = Wallet::new(address.to_string());
    assert_eq!(w1.challenge_message, w2.challenge_message);
    assert_eq!(w1.challenge_message, a);
}

#[test]
fn test_challenge_exact_text() {
    let address = "0x6cd15da14a4ef26047f1d7858d7a82b59ddca102";
    let nonce = to_lower_hex(&keccak256(address.as_bytes()));
    let expected: String = format!(
        r#"{{
"domain": {{ "name": "Defguard", "version": "1" }},
"types": {{
    "EIP712Domain": [
        {{ "name": "name", "type": "string" }},
        {{ "name": "version", "type": "string" }}
    ],
    "ProofOfOwnership": [
        {{ "name": "wallet", "type": "address" }},
        {{ "name": "content", "type": "string" }},
        {{ "name": "nonce", "type": "string" }}
    ]
}},
"primaryType": "ProofOfOwnership",
"message": {{
    "wallet": "{}",
    "content": "{}",
    "nonce": "{}"
}}}}
"#,
        address,
        challenge_template(),
        nonce,
    )
    .chars()
    .filter(|c| c != &'\r' && c != &'\n' && c != &'\t')
    .collect();
    assert_eq!(Wallet::format_challenge(address, challenge_template()), expected);
}

#[test]
fn test_verify_rejects_malformed_inputs() {
    let address = "0x6cD15DA14A4Ef26047f1D7858D7A82b59DDCa102";
    let wallet = Wallet::new(address.into());
    let message = wallet.challenge_message.clone();
    // malformed hex in the signature
    assert_eq!(wallet.verify_address(&message, "0xzz"), Err(Web3Error::Decode));
    // not a structured-data document
    let sig65 = "0x".to_string() + &"11".repeat(65);
    let w = Wallet::new(address.into());
    assert_eq!(w.verify_address("not json", &sig65), Err(Web3Error::Decode));
    // wrong signature length
    let sig64 = "0x".to_string() + &"11".repeat(64);
    assert_eq!(wallet.verify_address(&message, &sig64), Err(Web3Error::ParseSignature));
    // recovery byte outside every accepted encoding
    let mut bad = "11".repeat(64);
    bad.push_str("05");
    assert_eq!(wallet.verify_address(&message, &bad), Err(Web3Error::InvalidRecoveryId));
}

#[test]
fn test_hex_decode_and_encode() {
    assert_eq!(hex_decode("0x0001ff").unwrap(), vec![0u8, 1, 255]);
    assert_eq!(hex_decode("0001FF").unwrap(), vec![0u8, 1, 255]);
    assert_eq!(hex_decode("0X0001Ff").unwrap(), vec![0u8, 1, 255]);
    assert_eq!(hex_decode("0xabc"), Err(HexError::InvalidStringLength(3)));
    assert_eq!(hex_decode("0xag"), Err(HexError::InvalidCharacter(b'g')));
    assert_eq!(hex_decode(""), Ok(vec![]));
    assert_eq!(to_lower_hex(&[0u8, 1, 255]), "0001ff");
    let bytes = vec![0xdeu8, 0xad, 0xbe, 0xef];
    assert_eq!(hex_decode(&to_lower_hex(&bytes)).unwrap(), bytes);
}

#[test]
fn test_keccak256_known_digest() {
    let digest = keccak256(b"");
    assert_eq!(
        to_lower_hex(&digest),
        "c5d2460186f7233c927e7db2dcc703c0e500b653ca82273b7bfad8045d85a470"
    );
}

#[test]
fn test_hash_message_matches_manual_prefixing() {
    let message = b"hello world";
    let mut framed: Vec<u8> = Vec::new();
    framed.push(0x19);
    framed.extend_from_slice(b"Ethereum Signed Message:\n");
    framed.extend_from_slice(message.len().to_string().as_bytes());
    framed.extend_from_slice(message);
    let mut expected = [0u8; 32];
    let mut hasher = tiny_keccak::Keccak::v256();
    hasher.update(&framed);
    hasher.finalize(&mut expected);
    assert_eq!(hash_message(message), expected);
}
