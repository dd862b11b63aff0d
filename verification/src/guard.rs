//! The authentication guard: from an incoming token to an authenticated
//! principal, or a typed rejection.
//!
//! The guard runs a fixed gate sequence, first failure wins: token present,
//! token decodes with a valid signature, login kind matches, token not
//! expired, principal found in storage, live roles equal to the claim's
//! snapshot, permission granted. The storage lookup between the two halves
//! is an external collaborator: [`check_token`] covers the gates before it
//! and [`authorize`] the gates after it, on the lookup's result.
//!
//! The role comparison is the authority-drift guard: any role change
//! invalidates all outstanding tokens of the principal without a
//! revocation list, because the next request fails that comparison and
//! forces re-authentication.

use vstd::prelude::*;
use core::marker::PhantomData;
use vstd::utf8::encode_utf8;
use crate::claim::{claim_encodable, ClaimData, LoginClaim};
use crate::permissions::Permission;
use crate::roles::{roles_set_equal, same_role_set, Roles};
use crate::token::{decode, issue, spec_sig_valid, token_bytes, wf_token, DecodeError};

verus! {

/// The default time to live of an issued token: 30 days, in microseconds.
pub const TOKEN_TTL_MICROS: u64 = 30 * 24 * 60 * 60 * 1000000;

/// Trait defining a way of logging in.
///
/// A login kind has a fixed name (for example `"user"`) and every login of
/// it has a stable 128-bit identifier. Storage lookup and role retrieval
/// belong to the storage collaborator: the guard receives their results as
/// arguments.
pub trait Login {
    /// The name of this type of login, at the specification level.
    spec fn spec_login_name() -> Seq<char>;

    /// The identifier of this login, at the specification level.
    spec fn spec_id(&self) -> u128;

    /// Name of this type of login. (e.g. user)
    fn login_name() -> (r: String)
        ensures
            r@ == Self::spec_login_name(),
    ;

    /// Returns the identifier of this login.
    fn get_id(&self) -> (r: u128)
        ensures
            r == self.spec_id(),
    ;
}

/// Why the guard rejected a request.
#[derive(Clone, Copy, Debug, PartialEq, Eq, Structural)]
pub enum AuthError {
    /// No token came with the request.
    TokenMissing,
    /// The token did not decode: bad signature or malformed.
    Decode(DecodeError),
    /// The claim's login kind is not the expected one.
    KindMismatch,
    /// The claim's expiry is not after the current instant.
    Expired,
    /// No principal with the claim's identifier was found.
    PrincipalNotFound,
    /// The live roles differ from the claim's snapshot.
    RoleDrift,
    /// The live roles do not satisfy the requested permission.
    PermissionDenied,
    /// The storage collaborator could not serve the lookup.
    StorageUnavailable,
}

impl AuthError {
    /// The internal diagnostic reason of this rejection.
    ///
    /// The transport layer must collapse all of these into one external
    /// "unauthorized" outcome; the reason is for logging only.
    pub open spec fn spec_reason(self) -> Seq<char> {
        match self {
            AuthError::TokenMissing => "token not found"@,
            AuthError::Decode(_) => "failed to decode token"@,
            AuthError::KindMismatch => "invalid login kind"@,
            AuthError::Expired => "login expired"@,
            AuthError::PrincipalNotFound => "principal not found"@,
            AuthError::RoleDrift => "outdated login"@,
            AuthError::PermissionDenied => "permission denied"@,
            AuthError::StorageUnavailable => "storage unavailable"@,
        }
    }

    /// Writes the internal diagnostic reason of this rejection.
    pub fn reason(&self) -> (r: String)
        ensures
            r@ == self.spec_reason(),
    {
        match self {
            AuthError::TokenMissing => "token not found".to_owned(),
            AuthError::Decode(_) => "failed to decode token".to_owned(),
            AuthError::KindMismatch => "invalid login kind".to_owned(),
            AuthError::Expired => "login expired".to_owned(),
            AuthError::PrincipalNotFound => "principal not found".to_owned(),
            AuthError::RoleDrift => "outdated login".to_owned(),
            AuthError::PermissionDenied => "permission denied".to_owned(),
            AuthError::StorageUnavailable => "storage unavailable".to_owned(),
        }
    }
}

/// An authenticated principal, together with a marker of which permission
/// type was checked.
///
/// The only way to obtain one is through [`authorize`], so downstream code
/// cannot treat a principal validated for one permission as validated for
/// another without re-invoking the guard.
pub struct Authenticated<T: Login, P: Permission> {
    principal: T,
    marker: PhantomData<P>,
}

impl<T: Login, P: Permission> Authenticated<T, P> {
    /// The authenticated principal, at the specification level.
    pub closed spec fn spec_principal(&self) -> T {
        self.principal
    }

    /// Borrows the authenticated principal.
    pub fn principal(&self) -> (r: &T)
        ensures
            r == self.spec_principal(),
    {
        &self.principal
    }

    /// Yields the authenticated principal.
    pub fn into_principal(self) -> (r: T)
        ensures
            r == self.spec_principal(),
    {
        self.principal
    }
}

/// The simplest principal of the standard "user" login kind: its stable
/// 128-bit identifier. Storage layers with richer principal types
/// implement [`Login`] for their own types instead.
#[derive(Clone, Copy, Debug, PartialEq, Eq, Structural)]
pub struct UserPrincipal {
    /// The principal's stable unique identifier.
    pub id: u128,
}

impl Login for UserPrincipal {
    open spec fn spec_login_name() -> Seq<char> {
        "user"@
    }

    open spec fn spec_id(&self) -> u128 {
        self.id
    }

    fn login_name() -> (r: String) {
        proof {
            reveal_strlit("user");
        }
        "user".to_owned()
    }

    fn get_id(&self) -> (r: u128) {
        self.id
    }
}

/// Gates one to four of the guard: a token is present, it decodes under
/// the secret with a valid signature, its login kind is the expected one,
/// and it is not expired.
///
/// A claim whose `valid_to` equals the current instant is already expired:
/// validity is exclusive at the boundary.
pub fn check_token<T: Login>(token: Option<&String>, now_micros: u64, secret: &[u8]) -> (r: Result<
    LoginClaim,
    AuthError,
>)
    ensures
        (match r {
            Ok(c) => {
                &&& token matches Some(t) && claim_encodable(c@) && encode_utf8(t@) == token_bytes(
                    c@,
                    secret@,
                )
                &&& c@.login_name == T::spec_login_name()
                &&& c@.valid_to > now_micros
            },
            Err(e) => {
                &&& (e == AuthError::TokenMissing <==> token is None)
                &&& (e matches AuthError::Decode(d) ==> (token matches Some(t) && (forall|
                    c2: ClaimData,
                |
                    claim_encodable(c2) ==> encode_utf8(t@) != token_bytes(c2, secret@)) && (d
                    == DecodeError::BadSignature <==> wf_token(encode_utf8(t@)) && !spec_sig_valid(
                    encode_utf8(t@),
                    secret@,
                ))))
                &&& (e == AuthError::KindMismatch ==> (token matches Some(t) && exists|c2: ClaimData|
                    claim_encodable(c2) && encode_utf8(t@) == token_bytes(c2, secret@)
                        && c2.login_name != T::spec_login_name()))
                &&& (e == AuthError::Expired ==> (token matches Some(t) && exists|c2: ClaimData|
                    claim_encodable(c2) && encode_utf8(t@) == token_bytes(c2, secret@)
                        && c2.login_name == T::spec_login_name() && c2.valid_to <= now_micros))
                &&& (e matches AuthError::Decode(_) || e == AuthError::TokenMissing || e
                    == AuthError::KindMismatch || e == AuthError::Expired)
            },
        }),
        forall|c2: ClaimData|
            (claim_encodable(c2) && (token matches Some(t) && encode_utf8(t@) == token_bytes(
                c2,
                secret@,
            )) && c2.login_name == T::spec_login_name() && c2.valid_to > now_micros) ==> (
            r matches Ok(c) && c@ == c2),
{
    let t = match token {
        Some(t) => t,
        None => {
            return Err(AuthError::TokenMissing);
        },
    };
    let claim = match decode(t.as_str(), secret) {
        Ok(c) => c,
        Err(d) => {
            return Err(AuthError::Decode(d));
        },
    };
    let expected = T::login_name();
    if !(claim.login_name == expected) {
        assert(claim@.login_name != T::spec_login_name());
        return Err(AuthError::KindMismatch);
    }
    if claim.valid_to <= now_micros {
        return Err(AuthError::Expired);
    }
    Ok(claim)
}

/// Gates five to seven of the guard, on the storage lookup's result: the
/// principal was found, its live roles equal the claim's snapshot as sets,
/// and the live roles satisfy the permission `P`.
///
/// The permission is evaluated against the live roles, never against the
/// claim's snapshot: a token is long-lived, and trusting the snapshot
/// would let a de-privileged principal keep old privileges until expiry.
pub fn authorize<T: Login, P: Permission>(claim: &LoginClaim, lookup: Option<(T, Roles)>) -> (r:
    Result<Authenticated<T, P>, AuthError>)
    ensures
        (match r {
            Ok(a) => {
                &&& lookup matches Some(pr)
                &&& a.spec_principal() == pr.0
                &&& same_role_set(claim@.roles, pr.1@)
                &&& P::spec_granted(pr.1@.to_set())
            },
            Err(e) => {
                &&& (e == AuthError::PrincipalNotFound <==> lookup is None)
                &&& (e == AuthError::RoleDrift <==> (lookup matches Some(pr) && !same_role_set(
                    claim@.roles,
                    pr.1@,
                )))
                &&& (e == AuthError::PermissionDenied <==> (lookup matches Some(pr)
                    && same_role_set(claim@.roles, pr.1@) && !P::spec_granted(pr.1@.to_set())))
            },
        }),
        (r is Ok <==> (lookup matches Some(pr) && same_role_set(claim@.roles, pr.1@)
            && P::spec_granted(pr.1@.to_set()))),
{
    let (principal, live_roles) = match lookup {
        Some(pr) => pr,
        None => {
            return Err(AuthError::PrincipalNotFound);
        },
    };
    if !roles_set_equal(&claim.roles, &live_roles.0) {
        return Err(AuthError::RoleDrift);
    }
    if !P::is_granted(&live_roles) {
        return Err(AuthError::PermissionDenied);
    }
    Ok(Authenticated { principal, marker: PhantomData })
}

/// Duplicates a role-name collection.
fn clone_names(v: &Vec<String>) -> (r: Vec<String>)
    ensures
        r.deep_view() == v.deep_view(),
{
    let mut out: Vec<String> = Vec::new();
    let mut i: usize = 0;
    while i < v.len()
        invariant
            i <= v.len(),
            out.deep_view() =~= v.deep_view().take(i as int),
        decreases v.len() - i,
    {
        let ghost pre = out.deep_view();
        out.push(v[i].clone());
        assert(out.deep_view() =~= pre.push(v@[i as int]@));
        assert(out.deep_view() =~= v.deep_view().take(i + 1));
        i += 1;
    }
    assert(v.deep_view().take(v.len() as int) =~= v.deep_view());
    out
}

/// Builds and signs the token of a login: the claim carries the login's
/// identifier and kind, an expiry 30 days from now, and a snapshot of the
/// given roles.
///
/// Returns `None` exactly when a role name, the kind name or the role
/// count does not fit the payload format's length prefixes.
pub fn create_token<T: Login>(login: &T, roles: &Roles, now_micros: u64, secret: &[u8]) -> (r:
    Option<String>)
    requires
        now_micros + TOKEN_TTL_MICROS <= u64::MAX,
    ensures
        ({
            let c = ClaimData {
                id: login.spec_id(),
                login_name: T::spec_login_name(),
                valid_to: (now_micros + TOKEN_TTL_MICROS) as u64,
                roles: roles@,
            };
            match r {
                Some(t) => claim_encodable(c) && encode_utf8(t@) == token_bytes(c, secret@),
                None => !claim_encodable(c),
            }
        }),
{
    let claim = LoginClaim {
        id: login.get_id(),
        login_name: T::login_name(),
        valid_to: now_micros + TOKEN_TTL_MICROS,
        roles: clone_names(&roles.0),
    };
    issue(&claim, secret)
}

} // verus!
