use versualizer_core::auth::{
    accept_token_response, decode_secret_payload, CachedAccessToken, CachedSecret,
    SpotifyAuthError, TokenResponse,
};
use versualizer_core::token::{build_token_query, cached_token_usable};
use versualizer_core::totp::generate_totp;

#[test]
fn test_generate_totp_format() {
    // Test with a dummy secret
    let secret = b"test_secret_key!";
    let result = generate_totp(secret, 1_700_000_000);

    assert!(result.is_ok());
    let code = result.expect("TOTP generation should succeed");
    assert_eq!(code.len(), 6, "TOTP should be 6 digits");
    assert!(
        code.chars().all(|c| c.is_ascii_digit()),
        "TOTP should only contain digits"
    );
}

#[test]
fn test_generate_totp_same_period() {
    // Same 30-second period should produce same code
    // 1_700_000_010 / 30 = 56_666_667 (floor)
    // 1_700_000_020 / 30 = 56_666_667 (floor)
    let secret = b"test_secret_key!";
    let code1 = generate_totp(secret, 1_700_000_010).expect("TOTP generation should succeed");
    let code2 = generate_totp(secret, 1_700_000_020).expect("TOTP generation should succeed");

    assert_eq!(code1, code2, "Same period should produce same code");
}

#[test]
fn test_generate_totp_different_period() {
    // Different 30-second periods should produce different codes
    let secret = b"test_secret_key!";
    let code1 = generate_totp(secret, 1_700_000_000).expect("TOTP generation should succeed");
    let code2 = generate_totp(secret, 1_700_000_030).expect("TOTP generation should succeed");

    assert_ne!(code1, code2, "Different periods should produce different codes");
}

#[test]
fn test_token_expiry_uses_relative_clock() {
    let token = CachedAccessToken {
        access_token: "tok".to_string(),
        expires_at_ms: 960_000,
        fetched_at: 50_000,
        fetched_at_system_ms: 900_000,
    };
    // 10 s after the fetch the reconstructed time is 910 000 ms; with the
    // 60 s buffer that reaches past the expiry.
    assert!(token.is_expired(60, 60_000));
    // Without the buffer it still has 50 s to go.
    assert!(!token.is_expired(0, 60_000));
}

#[test]
fn test_cached_token_fast_path() {
    let token = CachedAccessToken {
        access_token: "tok".to_string(),
        expires_at_ms: 10_000_000,
        fetched_at: 0,
        fetched_at_system_ms: 0,
    };
    assert!(cached_token_usable(&Some(token), 1_000));
    assert!(!cached_token_usable(&None, 1_000));
}

#[test]
fn test_secret_refresh_after_max_age() {
    let secret = CachedSecret {
        secret: vec![1, 2, 3],
        version: "61".to_string(),
        fetched_at: 1_000,
    };
    assert!(!secret.should_refresh(86_400_000, 1_000 + 86_400_000));
    assert!(secret.should_refresh(86_400_000, 1_001 + 86_400_000));
}

#[test]
fn test_anonymous_token_is_distinct_failure() {
    let resp = TokenResponse {
        access_token: "anon".to_string(),
        access_token_expiration_timestamp_ms: 123,
        is_anonymous: true,
    };
    assert!(matches!(
        accept_token_response(resp, 1, 2),
        Err(SpotifyAuthError::SpDcInvalid)
    ));

    let good = TokenResponse {
        access_token: "real".to_string(),
        access_token_expiration_timestamp_ms: 456,
        is_anonymous: false,
    };
    let cached = accept_token_response(good, 10, 20).unwrap();
    assert_eq!(cached.access_token, "real");
    assert_eq!(cached.expires_at_ms, 456);
    assert_eq!(cached.fetched_at, 10);
    assert_eq!(cached.fetched_at_system_ms, 20);
}

#[test]
fn test_decode_secret_picks_highest_version() {
    // decoded[i] = raw[i] ^ ((i % 33) + 9), written out as decimal text.
    // For version "10": [40 ^ 9, 35 ^ 10] = [33, 41] -> "3341".
    let entries = vec![
        ("7".to_string(), vec![0u8]),
        ("10".to_string(), vec![40u8, 35u8]),
        ("junk".to_string(), vec![1u8]),
    ];
    let secret = decode_secret_payload(entries, 5_000).unwrap();
    assert_eq!(secret.version, "10");
    assert_eq!(secret.secret, b"3341".to_vec());
    assert_eq!(secret.fetched_at, 5_000);
}

#[test]
fn test_decode_secret_fails_without_numeric_version() {
    let entries = vec![("junk".to_string(), vec![1u8])];
    assert!(matches!(
        decode_secret_payload(entries, 0),
        Err(SpotifyAuthError::SecretDecodeError)
    ));
}

#[test]
fn test_token_query_shape() {
    let q = build_token_query("123456", "61", 1_700_000_000_000);
    assert_eq!(
        q,
        "?reason=init&productType=web-player&totp=123456&totpVer=61&ts=1700000000000"
    );
}
