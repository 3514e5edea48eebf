use deskd::app::a2a_jwt::{
    base64_url_decode, base64_url_encode, claims_from_json, der_to_pem, pem_to_der, verified_claims,
    verify_jwt, verify_jwt_base64, A2aClaims, A2aError, DecodeFailure, Jwks, KeyPair,
};
use deskd::json::parse_json;

fn unix_now() -> u64 {
    std::time::SystemTime::now()
        .duration_since(std::time::UNIX_EPOCH)
        .unwrap()
        .as_secs()
}

#[test]
fn test_generate_and_sign_verify() {
    let kp = KeyPair::generate().unwrap();
    let token = kp.sign_jwt("https://test.example.com", 60, unix_now()).unwrap();

    let claims = verify_jwt(&token, kp.public_key_bytes()).unwrap();
    assert_eq!(claims.iss, "https://test.example.com");
    assert!(claims.exp > claims.iat);
    assert_eq!(claims.exp - claims.iat, 60);
}

#[test]
fn test_verify_with_wrong_key_fails() {
    let kp1 = KeyPair::generate().unwrap();
    let kp2 = KeyPair::generate().unwrap();
    let token = kp1.sign_jwt("https://a.example.com", 60, unix_now()).unwrap();

    let result = verify_jwt(&token, kp2.public_key_bytes());
    assert!(result.is_err());
}

#[test]
fn test_expired_token_rejected() {
    let kp = KeyPair::generate().unwrap();
    let now = unix_now();
    let claims = A2aClaims {
        iss: "https://test.example.com".into(),
        iat: now - 200,
        exp: now - 100,
    };
    let token = kp.sign_claims(&claims).unwrap();

    let result = verify_jwt(&token, kp.public_key_bytes());
    assert!(result.is_err());
    assert_eq!(result.unwrap_err(), A2aError::Expired);
}

#[test]
fn test_base64url_roundtrip() {
    let kp = KeyPair::generate().unwrap();
    let b64 = kp.public_key_base64url();
    let token = kp.sign_jwt("https://test.example.com", 60, unix_now()).unwrap();

    let claims = verify_jwt_base64(&token, &b64).unwrap();
    assert_eq!(claims.iss, "https://test.example.com");
}

#[test]
fn test_jwks_from_public_key() {
    let kp = KeyPair::generate().unwrap();
    let jwks = Jwks::from_public_key(kp.public_key_bytes());
    assert_eq!(jwks.keys.len(), 1);
    assert_eq!(jwks.keys[0].kty, "OKP");
    assert_eq!(jwks.keys[0].crv, "Ed25519");
    assert!(!jwks.keys[0].x.is_empty());
    assert_eq!(base64_url_decode(&jwks.keys[0].x).unwrap(), kp.public_key_bytes());
}

#[test]
fn test_save_and_load_keypair() {
    let kp = KeyPair::generate().unwrap();
    let loaded = KeyPair::from_pem(&kp.private_key_pem()).unwrap();

    let token = kp.sign_jwt("https://test.example.com", 60, unix_now()).unwrap();
    let claims = verify_jwt(&token, loaded.public_key_bytes()).unwrap();
    assert_eq!(claims.iss, "https://test.example.com");

    let token2 = loaded.sign_jwt("https://test2.example.com", 30, unix_now()).unwrap();
    let claims2 = verify_jwt(&token2, kp.public_key_bytes()).unwrap();
    assert_eq!(claims2.iss, "https://test2.example.com");
}

#[test]
fn test_pem_roundtrip() {
    let original = vec![1u8, 2, 3, 4, 5, 6, 7, 8];
    let pem = der_to_pem(&original, "TEST DATA");
    let decoded = pem_to_der(&pem).unwrap();
    assert_eq!(original, decoded);
}

#[test]
fn pem_text_is_wrapped() {
    assert_eq!(
        der_to_pem(&[1, 2, 3, 4, 5, 6, 7, 8], "TEST DATA"),
        "-----BEGIN TEST DATA-----\nAQIDBAUGBwg=\n-----END TEST DATA-----\n"
    );
    assert_eq!(der_to_pem(&[], "X"), "-----BEGIN X-----\n-----END X-----\n");
    let pem = der_to_pem(&[0u8; 96], "X");
    let lens: Vec<usize> = pem.lines().map(|l| l.len()).collect();
    assert_eq!(lens, vec![17, 64, 64, 15]);
    assert_eq!(pem_to_der("no base64!"), None);
    assert_eq!(pem_to_der("-----BEGIN\r\nAQI=\r\n-----END").unwrap(), vec![1, 2]);
}

#[test]
fn keys_that_are_refused() {
    assert_eq!(KeyPair::from_pem("***").err(), Some(A2aError::Pem));
    assert_eq!(
        KeyPair::from_pem(&der_to_pem(&[1, 2, 3], "PRIVATE KEY")).err(),
        Some(A2aError::InvalidKey)
    );
    assert_eq!(A2aError::Pem.message(), "invalid PEM format for private key");
    assert_eq!(A2aError::KeyText.message(), "base64url decode failed");
}

#[test]
fn tokens_that_are_refused() {
    let kp = KeyPair::generate().unwrap();
    assert_eq!(verify_jwt("a.b.c", kp.public_key_bytes()).unwrap_err(), A2aError::Rejected);
    assert_eq!(verify_jwt_base64("a.b.c", "+++").unwrap_err(), A2aError::KeyText);
    let header = jsonwebtoken::Header::new(jsonwebtoken::Algorithm::EdDSA);
    let key = jsonwebtoken::EncodingKey::from_ed_der(kp.private_key_der());
    let mut claims = std::collections::BTreeMap::new();
    claims.insert("iss", serde_json::Value::from("x"));
    claims.insert("exp", serde_json::Value::from(unix_now() + 60));
    let token = jsonwebtoken::encode(&header, &claims, &key).unwrap();
    assert_eq!(verify_jwt(&token, kp.public_key_bytes()).unwrap_err(), A2aError::Claims);
}

#[test]
fn claims_out_of_json() {
    let c = claims_from_json(&parse_json(r#"{"exp":9,"iat":4,"iss":"me","x":1}"#).unwrap()).unwrap();
    assert_eq!((c.iss.as_str(), c.iat, c.exp), ("me", 4, 9));
    assert!(claims_from_json(&parse_json(r#"{"exp":-9,"iat":4,"iss":"me"}"#).unwrap()).is_none());
    assert!(claims_from_json(&parse_json(r#"{"exp":9,"iss":"me"}"#).unwrap()).is_none());
}

#[test]
fn url_safe_base64() {
    assert_eq!(base64_url_encode(&[0xfb, 0xff, 0xfe]), "-__-");
    assert_eq!(base64_url_encode(b"hi"), "aGk");
    assert_eq!(base64_url_decode("aGk").unwrap(), b"hi");
    assert_eq!(base64_url_decode("aGk="), None);
}

#[test]
fn public_key_pem_holds_the_key() {
    let kp = KeyPair::generate().unwrap();
    let pem = kp.public_key_pem();
    assert!(pem.starts_with("-----BEGIN PUBLIC KEY-----\n"));
    assert_eq!(pem_to_der(&pem).unwrap(), kp.public_key_bytes());
    assert_eq!(kp.public_key_bytes().len(), 32);
}

#[test]
fn claims_are_written_in_their_order() {
    let kp = KeyPair::generate().unwrap();
    let token = kp.sign_jwt("https://a", 60, 100).unwrap();
    let parts: Vec<&str> = token.split('.').collect();
    assert_eq!(parts.len(), 3);
    let payload = base64_url_decode(parts[1]).unwrap();
    assert_eq!(
        String::from_utf8(payload).unwrap(),
        r#"{"iss":"https://a","iat":100,"exp":160}"#
    );
    let header = base64_url_decode(parts[0]).unwrap();
    assert_eq!(String::from_utf8(header).unwrap(), r#"{"typ":"JWT","alg":"EdDSA"}"#);
    assert_eq!(token, kp.sign_jwt("https://a", 60, 100).unwrap());
}

#[test]
fn what_a_decoded_token_comes_to() {
    let claims = parse_json(r#"{"iss":"i","iat":1,"exp":2}"#).unwrap();
    let c = verified_claims(Ok(claims)).unwrap();
    assert_eq!((c.iss.as_str(), c.iat, c.exp), ("i", 1, 2));
    let lacking = parse_json(r#"{"iss":"i","exp":2}"#).unwrap();
    assert_eq!(verified_claims(Ok(lacking)).unwrap_err(), A2aError::Claims);
    assert_eq!(verified_claims(Err(DecodeFailure::Expired)).unwrap_err(), A2aError::Expired);
    assert_eq!(verified_claims(Err(DecodeFailure::Refused)).unwrap_err(), A2aError::Rejected);
    assert_eq!(A2aError::Expired.message(), "token has expired");
}

#[test]
fn tokens_lacking_a_claim_are_refused() {
    let kp = KeyPair::generate().unwrap();
    let key = jsonwebtoken::EncodingKey::from_ed_der(kp.private_key_der());
    let header = jsonwebtoken::Header::new(jsonwebtoken::Algorithm::EdDSA);
    let exp = unix_now() + 600;
    let sign = |text: String| {
        let claims = serde_json::from_str::<serde_json::Value>(&text).unwrap();
        jsonwebtoken::encode(&header, &claims, &key).unwrap()
    };
    let verify = |text: String| verify_jwt(&sign(text), kp.public_key_bytes());
    let full = format!("{{\"iss\":\"i\",\"iat\":1,\"exp\":{}}}", exp);
    assert_eq!(verify(full).unwrap().exp, exp);
    let no_issuer = format!("{{\"iat\":1,\"exp\":{}}}", exp);
    assert_eq!(verify(no_issuer).unwrap_err(), A2aError::Rejected);
    assert_eq!(verify("{\"iss\":\"i\",\"iat\":1}".into()).unwrap_err(), A2aError::Rejected);
    let no_time = format!("{{\"iss\":\"i\",\"exp\":{}}}", exp);
    assert_eq!(verify(no_time).unwrap_err(), A2aError::Claims);
}
