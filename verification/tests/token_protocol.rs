use ferrox_auth::claim::LoginClaim;
use ferrox_auth::token::{decode, issue, DecodeError};

const SECRET: &[u8] = b"a-test-signing-secret";

fn sample_claim() -> LoginClaim {
    LoginClaim {
        id: 0x0123456789abcdef0123456789abcdef,
        login_name: "user".to_string(),
        valid_to: 1_700_000_000_000_000,
        roles: vec!["ROLE_USER".to_string(), "ROLE_ADMIN".to_string()],
    }
}

#[test]
fn round_trip_reproduces_all_fields() {
    let claim = sample_claim();
    let token = issue(&claim, SECRET).unwrap();
    let back = decode(&token, SECRET).unwrap();
    assert_eq!(back.id, claim.id);
    assert_eq!(back.login_name, claim.login_name);
    assert_eq!(back.valid_to, claim.valid_to);
    assert_eq!(back.roles, claim.roles);
}

#[test]
fn round_trip_with_empty_roles_and_wide_characters() {
    let claim = LoginClaim {
        id: 0,
        login_name: "bürö-ädmin.sérvice".to_string(),
        valid_to: u64::MAX,
        roles: vec![],
    };
    let token = issue(&claim, SECRET).unwrap();
    let back = decode(&token, SECRET).unwrap();
    assert_eq!(back.id, 0);
    assert_eq!(back.login_name, claim.login_name);
    assert_eq!(back.valid_to, u64::MAX);
    assert!(back.roles.is_empty());
}

#[test]
fn token_has_exactly_three_segments() {
    // A role name holding a dot must not leak a dot into the compact form:
    // the payload is base-encoded, so only the two separators remain.
    let claim = LoginClaim {
        id: 7,
        login_name: "user".to_string(),
        roles: vec!["ROLE_A.B".to_string()],
        valid_to: 1,
    };
    let token = issue(&claim, SECRET).unwrap();
    assert_eq!(token.chars().filter(|c| *c == '.').count(), 2);
    assert_eq!(decode(&token, SECRET).unwrap().roles, claim.roles);
}

#[test]
fn expiry_is_not_checked_by_decode() {
    // Decoding is a pure cryptographic and parsing operation; the guard
    // checks expiry.
    let claim = LoginClaim { valid_to: 0, ..sample_claim() };
    let token = issue(&claim, SECRET).unwrap();
    assert_eq!(decode(&token, SECRET).unwrap().valid_to, 0);
}

#[test]
fn wrong_secret_is_a_bad_signature() {
    let token = issue(&sample_claim(), SECRET).unwrap();
    assert_eq!(decode(&token, b"another-secret").unwrap_err(), DecodeError::BadSignature);
}

#[test]
fn any_payload_or_signature_byte_flip_is_a_bad_signature() {
    let token = issue(&sample_claim(), SECRET).unwrap();
    let bytes = token.as_bytes().to_vec();
    let first_dot = bytes.iter().position(|b| *b == b'.').unwrap();
    for pos in (first_dot + 1)..bytes.len() {
        if bytes[pos] == b'.' {
            continue;
        }
        let mut tampered = bytes.clone();
        tampered[pos] = if tampered[pos] == b'A' { b'B' } else { b'A' };
        if tampered[pos] == bytes[pos] {
            continue;
        }
        let tampered = String::from_utf8(tampered).unwrap();
        assert_eq!(
            decode(&tampered, SECRET).unwrap_err(),
            DecodeError::BadSignature,
            "flip at byte {} went undetected",
            pos
        );
    }
}

#[test]
fn structurally_broken_tokens_are_malformed() {
    assert_eq!(decode("", SECRET).unwrap_err(), DecodeError::Malformed);
    assert_eq!(decode("abc", SECRET).unwrap_err(), DecodeError::Malformed);
    assert_eq!(decode("a.b", SECRET).unwrap_err(), DecodeError::Malformed);
    assert_eq!(decode("a.b.c.d", SECRET).unwrap_err(), DecodeError::Malformed);
    // Wrong header segment.
    assert_eq!(decode("AAAA.b.c", SECRET).unwrap_err(), DecodeError::Malformed);

    let token = issue(&sample_claim(), SECRET).unwrap();
    // A flipped header byte breaks the fixed header segment.
    let mut header_flip = token.as_bytes().to_vec();
    header_flip[0] = if header_flip[0] == b'A' { b'B' } else { b'A' };
    let header_flip = String::from_utf8(header_flip).unwrap();
    assert_eq!(decode(&header_flip, SECRET).unwrap_err(), DecodeError::Malformed);
}

#[test]
fn round_trip_extreme_field_values() {
    let claim = LoginClaim {
        id: u128::MAX,
        login_name: String::new(),
        valid_to: 1,
        roles: vec!["".to_string(), "x".to_string(), "x".to_string()],
    };
    let token = issue(&claim, SECRET).unwrap();
    let back = decode(&token, SECRET).unwrap();
    assert_eq!(back.id, u128::MAX);
    assert_eq!(back.login_name, "");
    assert_eq!(back.valid_to, 1);
    assert_eq!(back.roles, claim.roles);
}
