use avanguard::auth::Config;
use avanguard::error::ApiError;
use avanguard::jwt::{base64url_decode, base64url_encode, issue_id_token_at};
use avanguard::validate::{validate_token_at, validate_token_response};

fn test_config() -> Config {
    Config {
        issuer_url: "http://localhost:8080".to_string(),
        client_id: "client_id".to_string(),
        client_secret: "client_secret".to_string(),
        rsa_key: None,
        token_timeout: 3600 * 4,
        refresh_token_timeout: 3600 * 24,
    }
}

#[test]
fn test_base64url_vectors() {
    assert_eq!(base64url_encode(b""), "");
    assert_eq!(base64url_encode(b"f"), "Zg");
    assert_eq!(base64url_encode(b"fo"), "Zm8");
    assert_eq!(base64url_encode(b"foo"), "Zm9v");
    assert_eq!(base64url_encode(b"foob"), "Zm9vYg");
    assert_eq!(base64url_encode(b"fooba"), "Zm9vYmE");
    assert_eq!(base64url_encode(b"foobar"), "Zm9vYmFy");
    assert_eq!(base64url_encode(&[0xfbu8, 0xff, 0xfe]), "-__-");
    for input in [&b""[..], b"f", b"fo", b"foo", b"\xfb\xff\xfe\x00\x01"] {
        let encoded = base64url_encode(input);
        assert_eq!(base64url_decode(encoded.as_bytes()).unwrap(), input.to_vec());
    }
    // a lone trailing character, padding, and non-zero trailing bits are refused
    assert!(base64url_decode(b"A").is_none());
    assert!(base64url_decode(b"Zg==").is_none());
    assert!(base64url_decode(b"Zh").is_none());
    assert!(base64url_decode(b"Zm9+").is_none());
}

#[test]
fn test_issue_and_validate_round_trip() {
    let token = issue_id_token_at(
        "0xAbCdEf",
        "http://localhost:8080",
        b"client_secret",
        None,
        "n1",
        "client_id",
        1_000,
        3_600,
    )
    .unwrap();
    let claims = validate_token_at(b"client_secret", &token, "n1", 1_000).unwrap();
    assert_eq!(claims.sub, "0xabcdef");
    assert_eq!(claims.iss, "http://localhost:8080");
    assert_eq!(claims.aud, vec!["client_id".to_string()]);
    assert_eq!(claims.exp, 4_600);
    assert_eq!(claims.nonce, "n1");
}

#[test]
fn test_nonce_binding() {
    let token = issue_id_token_at(
        "0xab",
        "http://localhost:8080",
        b"client_secret",
        None,
        "n1",
        "client_id",
        1_000,
        3_600,
    )
    .unwrap();
    assert!(validate_token_at(b"client_secret", &token, "n1", 1_000).is_ok());
    assert!(validate_token_at(b"client_secret", &token, "n2", 1_000).is_err());
    assert!(validate_token_at(b"client_secret", &token, "", 1_000).is_err());
    assert!(validate_token_at(b"client_secret", &token, "n1 ", 1_000).is_err());
}

#[test]
fn test_token_expiry_and_tampering() {
    let token = issue_id_token_at(
        "0xab",
        "http://localhost:8080",
        b"client_secret",
        None,
        "n1",
        "client_id",
        1_000,
        3_600,
    )
    .unwrap();
    // expired exactly at `exp`
    assert!(validate_token_at(b"client_secret", &token, "n1", 4_600).is_err());
    assert!(validate_token_at(b"client_secret", &token, "n1", 4_599).is_ok());
    // wrong secret
    assert!(validate_token_at(b"other_secret", &token, "n1", 1_000).is_err());
    // flip one character of the signature
    let mut tampered: Vec<char> = token.chars().collect();
    let last = tampered.len() - 1;
    tampered[last] = if tampered[last] == 'A' { 'B' } else { 'A' };
    let tampered: String = tampered.into_iter().collect();
    assert!(validate_token_at(b"client_secret", &tampered, "n1", 1_000).is_err());
}

#[test]
fn test_issue_escapes_awkward_claims() {
    let nonce = "a\"b\\c\nd\te\u{1F600}";
    let token = issue_id_token_at(
        "0xAB",
        "http://localhost:8080/\"x\"",
        b"client_secret",
        None,
        nonce,
        "client_id",
        1_000,
        3_600,
    )
    .unwrap();
    let claims = validate_token_at(b"client_secret", &token, nonce, 1_000).unwrap();
    assert_eq!(claims.nonce, nonce);
    assert_eq!(claims.iss, "http://localhost:8080/\"x\"");
}

#[test]
fn test_validate_matches_reference_decoder() {
    // our issuer's token must be accepted by jsonwebtoken's decoder
    let now = chrono::Utc::now().timestamp();
    let token = issue_id_token_at(
        "0xAbC",
        "http://localhost:8080",
        b"client_secret",
        None,
        "n1",
        "client_id",
        now,
        3_600,
    )
    .unwrap();
    let mut validation = jsonwebtoken::Validation::new(jsonwebtoken::Algorithm::HS256);
    validation.validate_aud = false;
    let decoded = jsonwebtoken::decode::<serde_json::Value>(
        &token,
        &jsonwebtoken::DecodingKey::from_secret(b"client_secret"),
        &validation,
    )
    .unwrap();
    assert_eq!(decoded.claims.get("sub").and_then(|v| v.as_str()), Some("0xabc"));
    assert_eq!(decoded.claims.get("nonce").and_then(|v| v.as_str()), Some("n1"));
    assert_eq!(decoded.claims.get("iat").and_then(|v| v.as_i64()), Some(now));
}

#[test]
fn test_validate_accepts_reference_issuer() {
    // a token produced by jsonwebtoken must pass our validator
    let mut claims = serde_json::Map::new();
    claims.insert("iss".to_string(), serde_json::Value::String("http://x".to_string()));
    claims.insert("sub".to_string(), serde_json::Value::String("0xab".to_string()));
    claims.insert(
        "aud".to_string(),
        serde_json::Value::Array(vec![serde_json::Value::String("client_id".to_string())]),
    );
    claims.insert("exp".to_string(), serde_json::Value::Number(serde_json::Number::from(5_000)));
    claims.insert("iat".to_string(), serde_json::Value::Number(serde_json::Number::from(1_000)));
    claims.insert("nonce".to_string(), serde_json::Value::String("n9".to_string()));
    let extra = serde_json::Map::new();
    claims.insert("extra".to_string(), serde_json::Value::Object(extra));
    let token = jsonwebtoken::encode(
        &jsonwebtoken::Header::default(),
        &serde_json::Value::Object(claims),
        &jsonwebtoken::EncodingKey::from_secret(b"client_secret"),
    )
    .unwrap();
    let cl = validate_token_at(b"client_secret", &token, "n9", 1_000).unwrap();
    assert_eq!(cl.iss, "http://x");
    assert_eq!(cl.sub, "0xab");
    assert_eq!(cl.aud, vec!["client_id".to_string()]);
    assert_eq!(cl.exp, 5_000);
    assert_eq!(cl.nonce, "n9");
}

#[test]
fn test_validate_rejects_malformed_tokens() {
    assert!(validate_token_at(b"s", "", "n", 0).is_err());
    assert!(validate_token_at(b"s", "nodots", "n", 0).is_err());
    assert!(validate_token_at(b"s", "one.dot", "n", 0).is_err());
    assert!(validate_token_at(b"s", "a.b.c", "n", 0).is_err());
    assert!(validate_token_at(b"s", "\u{00e9}.x.y", "n", 0).is_err());
}

#[test]
fn test_validate_token_response_checks_nonce() {
    let config = test_config();
    let now = chrono::Utc::now().timestamp();
    let token = issue_id_token_at(
        "0xAB",
        "http://localhost:8080",
        b"client_secret",
        None,
        "n1",
        "client_id",
        now,
        3_600,
    )
    .unwrap();
    let claims = validate_token_response(&config, &token, "n1").unwrap();
    assert_eq!(claims.nonce, "n1");
    assert!(validate_token_response(&config, &token, "n2").is_err());
}

#[test]
fn test_rsa_mode_rejects_bad_key_material() {
    let err = issue_id_token_at(
        "0xab",
        "http://localhost:8080",
        b"client_secret",
        Some(b"not a pem"),
        "n1",
        "client_id",
        1_000,
        3_600,
    );
    assert_eq!(err, Err(ApiError::SigningError));
}

#[test]
fn test_error_codes_and_messages() {
    assert_eq!(ApiError::Database.code(), "DB");
    assert_eq!(ApiError::Database.message(), "Internal error");
    assert_eq!(ApiError::WalletNotFound.code(), "WalletNotFound");
    assert_eq!(ApiError::WalletNotFound.message(), "Wallet not found");
    assert_eq!(ApiError::TokenNotFound.code(), "TokenNotFound");
    assert_eq!(ApiError::TokenNotFound.message(), "Refresh token not found");
    assert_eq!(ApiError::SignatureIncorrect.code(), "SignatureIncorrect");
    assert_eq!(ApiError::SigningError.code(), "SignatureIncorrect");
    assert_eq!(ApiError::SigningError.message(), "Signing error");
    assert_eq!(ApiError::IpNotFound.code(), "IpNotFound");
    assert_eq!(ApiError::IpIncorrect.message(), "Ip not matching");
}

#[test]
fn test_issue_id_token_with_ambient_clock() {
    let config = test_config();
    let token = avanguard::jwt::issue_id_token(
        "0xAbCd",
        "http://localhost:8080",
        b"client_secret",
        None,
        "n7",
        "client_id",
        3_600,
    )
    .unwrap();
    let claims = validate_token_response(&config, &token, "n7").unwrap();
    assert_eq!(claims.sub, "0xabcd");
    assert_eq!(claims.nonce, "n7");
}

