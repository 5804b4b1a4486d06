use avanguard::auth::{refresh, web3auth_end, web3auth_start, Config, WalletSignature};
use avanguard::crypto::keccak256;
use avanguard::error::ApiError;
use avanguard::hex::to_lower_hex;
use avanguard::store::{Db, RefreshToken};
use avanguard::validate::validate_token_response;
use ethers_core::types::transaction::eip712::{Eip712, TypedData};
use secp256k1::{Message, Secp256k1};

fn test_config() -> Config {
    Config {
        issuer_url: "http://localhost:8080".to_string(),
        client_id: "client_id".to_string(),
        client_secret: "client_secret".to_string(),
        rsa_key: None,
        token_timeout: 3600 * 4,
        refresh_token_timeout: 3600 * 24,
    }
}

fn now() -> i64 {
    chrono::Utc::now().timestamp()
}

#[test]
fn test_refresh_token_single_use() {
    let mut db = Db::new();
    let token = RefreshToken::new(7, 3600);
    let value = token.token.clone();
    assert_eq!(token.token.len(), 24);
    assert!(token.token.chars().all(|c| c.is_ascii_alphanumeric()));
    db.save_refresh_token(token);

    let first = db.find_refresh_token(&value, now()).expect("fresh token must be found");
    assert_eq!(first.wallet_id, 7);
    assert!(first.used_at.is_none());
    db.set_used(&value, now());
    assert!(db.tokens[0].used_at.is_some());
    assert!(db.find_refresh_token(&value, now()).is_none());
}

#[test]
fn test_refresh_token_expiry_removes_record() {
    let mut db = Db::new();
    let at = now();
    let token = RefreshToken::new_at(3, "oldoldoldoldoldoldoldold".to_string(), at - 100, 50);
    assert_eq!(token.expires_at, at - 50);
    assert!(token.is_expired_at(at));
    db.save_refresh_token(token);
    assert_eq!(db.tokens.len(), 1);
    // an expired token is never returned, and the failed lookup removes it
    assert!(db.find_refresh_token("oldoldoldoldoldoldoldold", at).is_none());
    assert_eq!(db.tokens.len(), 0);
}

#[test]
fn test_expiry_boundary_instant() {
    let mut db = Db::new();
    let at = now();
    // expiring exactly now: no longer redeemable
    let t1 = RefreshToken::new_at(1, "aaaaaaaaaaaaaaaaaaaaaaaa".to_string(), at, 0);
    assert!(t1.is_expired_at(at));
    db.save_refresh_token(t1);
    assert!(db.find_refresh_token("aaaaaaaaaaaaaaaaaaaaaaaa", at).is_none());
    // expiring one second later: still redeemable
    let t2 = RefreshToken::new_at(1, "bbbbbbbbbbbbbbbbbbbbbbbb".to_string(), at, 1);
    assert!(!t2.is_expired_at(at));
    db.save_refresh_token(t2);
    assert!(db.find_refresh_token("bbbbbbbbbbbbbbbbbbbbbbbb", at).is_some());
}

#[test]
fn test_blacklist_blocks_redemption_independently() {
    let mut db = Db::new();
    let token = RefreshToken::new(1, 3600);
    let value = token.token.clone();
    db.save_refresh_token(token);
    db.blacklist(&value);
    assert!(db.tokens[0].used_at.is_none(), "blacklisting must not touch used_at");
    assert!(db.tokens[0].blacklisted);
    assert!(db.find_refresh_token(&value, now()).is_none());
}

#[test]
fn test_start_authentication_is_idempotent() {
    let mut db = Db::new();
    let c1 = web3auth_start(&mut db, "0xAbCd12");
    let c2 = web3auth_start(&mut db, "0xabcd12");
    assert_eq!(c1.challenge, c2.challenge);
    assert_eq!(db.wallets.len(), 1);
    assert_eq!(db.wallets[0].address, "0xabcd12");
}

#[test]
fn test_challenge_signing() {
    let secp = Secp256k1::new();
    let (secret_key, public_key) = secp.generate_keypair(&mut secp256k1::rand::rngs::OsRng);

    // derive the wallet address from the public key
    let public_key = public_key.serialize_uncompressed();
    let hash = keccak256(&public_key[1..]);
    let wallet_address = to_lower_hex(&hash[12..]);

    let mut db = Db::new();
    let config = test_config();

    // retrieve the challenge and sign it
    let challenge = web3auth_start(&mut db, &wallet_address);
    let typed_data: TypedData = serde_json::from_str(&challenge.challenge).unwrap();
    let digest = typed_data.encode_eip712().unwrap();
    let message = Message::from_digest_slice(&digest).unwrap();
    let sig_r = secp.sign_ecdsa_recoverable(&message, &secret_key);
    let (rec_id, sig) = sig_r.serialize_compact();
    let mut sig_arr = [0u8; 65];
    sig_arr[0..64].copy_from_slice(&sig[0..64]);
    sig_arr[64] = rec_id.to_i32() as u8;

    // post the signed challenge and check the issued token
    let token = web3auth_end(
        &mut db,
        &config,
        &WalletSignature {
            address: wallet_address.clone(),
            signature: to_lower_hex(&sig_arr),
            nonce: "test".to_string(),
        },
    )
    .unwrap();
    let claims = validate_token_response(&config, &token.token, "test").unwrap();
    assert_eq!(claims.sub, wallet_address);
    assert_eq!(claims.nonce, "test");
    assert!(db.wallets[0].challenge_signature.is_some());
    assert!(db.wallets[0].validation_timestamp.is_some());

    // a wrong nonce must fail validation for the same token
    assert!(validate_token_response(&config, &token.token, "other").is_err());

    // refresh rotates the token and drops the nonce binding
    let refreshed = refresh(&mut db, &config, &token.refresh_token).unwrap();
    let claims = validate_token_response(&config, &refreshed.token, "").unwrap();
    assert_eq!(claims.nonce, "");
    assert_eq!(claims.sub, wallet_address);
    assert_ne!(refreshed.refresh_token, token.refresh_token);

    // the old refresh token was marked used and cannot be redeemed again
    assert_eq!(refresh(&mut db, &config, &token.refresh_token).unwrap_err(), ApiError::TokenNotFound);
    assert!(
        db.tokens.iter().any(|t| t.token == token.refresh_token && t.used_at.is_some()),
        "the redeemed token must keep its used_at mark"
    );
}

#[test]
fn test_recovery_id_encodings_verify_identically() {
    let secp = Secp256k1::new();
    let (secret_key, public_key) = secp.generate_keypair(&mut secp256k1::rand::rngs::OsRng);
    let public_key = public_key.serialize_uncompressed();
    let hash = keccak256(&public_key[1..]);
    let wallet_address = to_lower_hex(&hash[12..]);

    let wallet = avanguard::wallet::Wallet::new(wallet_address.clone());
    let message = wallet.challenge_message.clone();
    let typed_data: TypedData = serde_json::from_str(&message).unwrap();
    let digest = typed_data.encode_eip712().unwrap();
    let msg = Message::from_digest_slice(&digest).unwrap();
    let sig_r = secp.sign_ecdsa_recoverable(&msg, &secret_key);
    let (rec_id, sig) = sig_r.serialize_compact();
    let raw = rec_id.to_i32() as u8;

    for v in [raw, raw + 27, raw + 35, raw + 37] {
        let mut sig_arr = [0u8; 65];
        sig_arr[0..64].copy_from_slice(&sig[0..64]);
        sig_arr[64] = v;
        let result = wallet.verify_address(&message, &to_lower_hex(&sig_arr)).unwrap();
        assert!(result, "recovery byte {} must verify like {}", v, raw);
    }
}

#[test]
fn test_tampered_signature_never_verifies() {
    let secp = Secp256k1::new();
    let (secret_key, public_key) = secp.generate_keypair(&mut secp256k1::rand::rngs::OsRng);
    let public_key = public_key.serialize_uncompressed();
    let wallet_address = to_lower_hex(&keccak256(&public_key[1..])[12..]);

    let wallet = avanguard::wallet::Wallet::new(wallet_address.clone());
    let message = wallet.challenge_message.clone();
    let typed_data: TypedData = serde_json::from_str(&message).unwrap();
    let digest = typed_data.encode_eip712().unwrap();
    let msg = Message::from_digest_slice(&digest).unwrap();
    let sig_r = secp.sign_ecdsa_recoverable(&msg, &secret_key);
    let (rec_id, sig) = sig_r.serialize_compact();

    // flipping any single bit makes verification fail or return false
    for byte in [0usize, 13, 31, 32, 50, 63] {
        for bit in [0u8, 3, 7] {
            let mut sig_arr = [0u8; 65];
            sig_arr[0..64].copy_from_slice(&sig[0..64]);
            sig_arr[64] = rec_id.to_i32() as u8;
            sig_arr[byte] ^= 1 << bit;
            let verdict = wallet.verify_address(&message, &to_lower_hex(&sig_arr));
            assert_ne!(verdict, Ok(true), "bit {} of byte {} must not verify", bit, byte);
        }
    }

    // substituting a different address than the signer's must fail
    let other = avanguard::wallet::Wallet::new("0x8AEF669452465635355923E4Dc80990aEAEE3b8d".into());
    let mut sig_arr = [0u8; 65];
    sig_arr[0..64].copy_from_slice(&sig[0..64]);
    sig_arr[64] = rec_id.to_i32() as u8;
    assert_ne!(other.verify_address(&message, &to_lower_hex(&sig_arr)), Ok(true));
}

#[test]
fn test_wallet_not_found_and_bad_signature() {
    let mut db = Db::new();
    let config = test_config();
    let sig = WalletSignature {
        address: "0xAb".to_string(),
        signature: "0x00".to_string(),
        nonce: "n".to_string(),
    };
    assert_eq!(web3auth_end(&mut db, &config, &sig).unwrap_err(), ApiError::WalletNotFound);
    web3auth_start(&mut db, "0xAb");
    assert_eq!(web3auth_end(&mut db, &config, &sig).unwrap_err(), ApiError::SignatureIncorrect);
    assert_eq!(refresh(&mut db, &config, "nosuchtoken").unwrap_err(), ApiError::TokenNotFound);
}
