use ferrox_auth::claim::LoginClaim;
use ferrox_auth::guard::{
    authorize, check_token, create_token, AuthError, Authenticated, UserPrincipal,
    TOKEN_TTL_MICROS,
};
use ferrox_auth::permissions::Permission;
use ferrox_auth::roles::{RoleAdmin, RoleUser, Roles};
use ferrox_auth::token::{issue, DecodeError};

const SECRET: &[u8] = b"guard-test-secret";
const NOW: u64 = 1_700_000_000_000_000;

fn rejection<P: Permission>(
    r: Result<Authenticated<UserPrincipal, P>, AuthError>,
) -> AuthError {
    match r {
        Err(e) => e,
        Ok(_) => panic!("expected a rejection"),
    }
}

fn names(items: &[&str]) -> Vec<String> {
    items.iter().map(|s| s.to_string()).collect()
}

fn user_token(roles: &[&str]) -> String {
    let user = UserPrincipal { id: 1 };
    create_token(&user, &Roles(names(roles)), NOW, SECRET).unwrap()
}

#[test]
fn missing_token_is_rejected() {
    let r = check_token::<UserPrincipal>(None, NOW, SECRET);
    let e = r.unwrap_err();
    assert_eq!(e, AuthError::TokenMissing);
    assert_eq!(e.reason(), "token not found");
}

#[test]
fn undecodable_token_is_rejected() {
    let garbage = "no dots at all".to_string();
    let e = check_token::<UserPrincipal>(Some(&garbage), NOW, SECRET).unwrap_err();
    assert_eq!(e, AuthError::Decode(DecodeError::Malformed));
    assert_eq!(e.reason(), "failed to decode token");

    let token = user_token(&["ROLE_USER"]);
    let e = check_token::<UserPrincipal>(Some(&token), NOW, b"other secret").unwrap_err();
    assert_eq!(e, AuthError::Decode(DecodeError::BadSignature));
}

#[test]
fn foreign_login_kind_is_rejected() {
    let claim = LoginClaim {
        id: 1,
        login_name: "admin-service".to_string(),
        valid_to: NOW + 10,
        roles: vec![],
    };
    let token = issue(&claim, SECRET).unwrap();
    let e = check_token::<UserPrincipal>(Some(&token), NOW, SECRET).unwrap_err();
    assert_eq!(e, AuthError::KindMismatch);
    assert_eq!(e.reason(), "invalid login kind");
}

#[test]
fn expiry_boundary_is_exclusive() {
    let claim = |valid_to: u64| LoginClaim {
        id: 1,
        login_name: "user".to_string(),
        valid_to,
        roles: vec![],
    };

    // valid_to exactly now: already expired.
    let token = issue(&claim(NOW), SECRET).unwrap();
    let e = check_token::<UserPrincipal>(Some(&token), NOW, SECRET).unwrap_err();
    assert_eq!(e, AuthError::Expired);
    assert_eq!(e.reason(), "login expired");

    // One microsecond before now: expired.
    let token = issue(&claim(NOW - 1), SECRET).unwrap();
    assert_eq!(check_token::<UserPrincipal>(Some(&token), NOW, SECRET).unwrap_err(), AuthError::Expired);

    // One microsecond after now: valid.
    let token = issue(&claim(NOW + 1), SECRET).unwrap();
    assert!(check_token::<UserPrincipal>(Some(&token), NOW, SECRET).is_ok());
}

#[test]
fn unknown_principal_is_rejected() {
    let token = user_token(&["ROLE_USER"]);
    let claim = check_token::<UserPrincipal>(Some(&token), NOW, SECRET).unwrap();
    let r = authorize::<UserPrincipal, ()>(&claim, None);
    let e = rejection(r);
    assert_eq!(e, AuthError::PrincipalNotFound);
    assert_eq!(e.reason(), "principal not found");
}

#[test]
fn role_drift_invalidates_an_unexpired_token() {
    // Issued with {ROLE_USER, ROLE_ADMIN}; storage later holds {ROLE_USER}.
    let token = user_token(&["ROLE_USER", "ROLE_ADMIN"]);
    let claim = check_token::<UserPrincipal>(Some(&token), NOW, SECRET).unwrap();
    let user = UserPrincipal { id: 1 };
    let live = Roles(names(&["ROLE_USER"]));
    let e = rejection(authorize::<UserPrincipal, ()>(&claim, Some((user, live))));
    assert_eq!(e, AuthError::RoleDrift);
    assert_eq!(e.reason(), "outdated login");
}

#[test]
fn reordered_roles_are_not_drift() {
    let token = user_token(&["ROLE_USER", "ROLE_ADMIN"]);
    let claim = check_token::<UserPrincipal>(Some(&token), NOW, SECRET).unwrap();
    let user = UserPrincipal { id: 1 };
    let live = Roles(names(&["ROLE_ADMIN", "ROLE_USER"]));
    assert!(authorize::<UserPrincipal, ()>(&claim, Some((user, live))).is_ok());
}

#[test]
fn end_to_end_scenario() {
    // Principal 1 with {ROLE_USER}, token with the 30-day default TTL.
    let user = UserPrincipal { id: 1 };
    let token =
        create_token(&user, &Roles(names(&["ROLE_USER"])), NOW, SECRET).unwrap();

    // Guarding for ROLE_USER succeeds and yields the principal.
    let claim = check_token::<UserPrincipal>(Some(&token), NOW, SECRET).unwrap();
    assert_eq!(claim.valid_to, NOW + TOKEN_TTL_MICROS);
    let live = Roles(names(&["ROLE_USER"]));
    let authed =
        authorize::<UserPrincipal, RoleUser>(&claim, Some((user.clone(), live))).unwrap();
    assert_eq!(authed.principal().id, 1);
    assert_eq!(authed.into_principal(), UserPrincipal { id: 1 });

    // The same token checked for ROLE_ADMIN is denied.
    let claim = check_token::<UserPrincipal>(Some(&token), NOW, SECRET).unwrap();
    let live = Roles(names(&["ROLE_USER"]));
    let e = rejection(authorize::<UserPrincipal, RoleAdmin>(&claim, Some((user.clone(), live))));
    assert_eq!(e, AuthError::PermissionDenied);
    assert_eq!(e.reason(), "permission denied");

    // After storage removes ROLE_USER, the original token is outdated.
    let claim = check_token::<UserPrincipal>(Some(&token), NOW, SECRET).unwrap();
    let live = Roles(Vec::new());
    let e = rejection(authorize::<UserPrincipal, ()>(&claim, Some((user, live))));
    assert_eq!(e, AuthError::RoleDrift);
    assert_eq!(e.reason(), "outdated login");
}

#[test]
fn permission_is_evaluated_against_live_roles() {
    // The claim's snapshot and the live roles agree as sets; the check
    // runs on the live set.
    let token = user_token(&["ROLE_USER"]);
    let claim = check_token::<UserPrincipal>(Some(&token), NOW, SECRET).unwrap();
    let user = UserPrincipal { id: 1 };
    let live = Roles(names(&["ROLE_USER"]));
    assert!(authorize::<UserPrincipal, RoleUser>(&claim, Some((user, live))).is_ok());
}

#[test]
fn storage_unavailable_has_its_own_reason() {
    assert_eq!(AuthError::StorageUnavailable.reason(), "storage unavailable");
}
