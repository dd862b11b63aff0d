use ferrox_auth::password::{hash_pw, verify_password, VerificationError};

#[test]
fn a_fresh_hash_verifies_against_its_password() {
    let hash = hash_pw(b"correct horse battery staple").unwrap();
    assert!(verify_password(b"correct horse battery staple", &hash).is_ok());
}

#[test]
fn a_wrong_password_is_a_mismatch() {
    let hash = hash_pw(b"first password").unwrap();
    assert_eq!(
        verify_password(b"second password", &hash).unwrap_err(),
        VerificationError::Mismatch
    );
}

#[test]
fn two_hashes_of_one_password_differ_but_both_verify() {
    let first = hash_pw(b"same input").unwrap();
    let second = hash_pw(b"same input").unwrap();
    assert_ne!(first, second);
    assert!(verify_password(b"same input", &first).is_ok());
    assert!(verify_password(b"same input", &second).is_ok());
}

#[test]
fn hashing_never_fails_on_input_content() {
    // The empty password and binary content both hash.
    let empty = hash_pw(b"").unwrap();
    assert!(verify_password(b"", &empty).is_ok());
    assert_eq!(verify_password(b"x", &empty).unwrap_err(), VerificationError::Mismatch);
    let binary = hash_pw(&[0u8, 255, 10, 46, 0]).unwrap();
    assert!(verify_password(&[0u8, 255, 10, 46, 0], &binary).is_ok());
}

#[test]
fn an_unparsable_encoded_string_is_malformed() {
    assert_eq!(
        verify_password(b"whatever", "not a phc string").unwrap_err(),
        VerificationError::Malformed
    );
    assert_eq!(verify_password(b"whatever", "").unwrap_err(), VerificationError::Malformed);
}
