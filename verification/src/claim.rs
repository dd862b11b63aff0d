//! The claim carried by a signed token, and its canonical payload encoding.
//!
//! A claim records the principal identifier (a 128-bit value), the
//! login-kind tag, the absolute expiry instant in microseconds since the
//! Unix epoch, and the snapshot of role names captured at issuance.
//!
//! The payload encoding is a fixed little-endian layout: the identifier
//! (16 bytes), the expiry (8 bytes), the UTF-8 bytes of the login-kind tag
//! with a 4-byte length prefix, a 4-byte role count, then each role's UTF-8
//! bytes with a 4-byte length prefix. Every encodable claim has exactly one
//! encoding, and every byte string is the encoding of at most one claim.

use vstd::prelude::*;
use vstd::bytes::{
    lemma_auto_spec_u128_to_from_le_bytes,
    lemma_auto_spec_u32_to_from_le_bytes,
    lemma_auto_spec_u64_to_from_le_bytes,
    spec_u128_to_le_bytes,
    spec_u32_to_le_bytes,
    spec_u64_to_le_bytes,
    u128_from_le_bytes,
    u128_to_le_bytes,
    u32_from_le_bytes,
    u32_to_le_bytes,
    u64_from_le_bytes,
    u64_to_le_bytes,
};
use vstd::slice::slice_subrange;
use vstd::slice::slice_to_vec;
use vstd::string::StrSliceExecFns;
use vstd::utf8::{encode_utf8, encode_utf8_decode_utf8, encode_utf8_valid_utf8, valid_utf8};

verus! {

/// The mathematical image of a claim.
#[verifier::ext_equal]
pub ghost struct ClaimData {
    /// Principal identifier.
    pub id: u128,
    /// Login-kind tag.
    pub login_name: Seq<char>,
    /// Expiry instant, microseconds since the Unix epoch.
    pub valid_to: u64,
    /// Role names captured at issuance.
    pub roles: Seq<Seq<char>>,
}

/// Claim of the signed token of a login.
///
/// A claim is immutable once decoded: it is a value, not a reference into
/// storage. The principal identifier is a 128-bit value and the expiry is
/// an absolute UTC instant in microseconds since the Unix epoch.
#[derive(Debug)]
pub struct LoginClaim {
    /// Identifier of the login.
    pub id: u128,
    /// Name of the login kind.
    pub login_name: String,
    /// Until when this token is valid (exclusive), in microseconds since
    /// the Unix epoch.
    pub valid_to: u64,
    /// Roles of the login at issuance time.
    ///
    /// A later change of the live roles causes a logout: see the guard.
    pub roles: Vec<String>,
}

impl View for LoginClaim {
    type V = ClaimData;

    open spec fn view(&self) -> ClaimData {
        ClaimData {
            id: self.id,
            login_name: self.login_name@,
            valid_to: self.valid_to,
            roles: self.roles.deep_view(),
        }
    }
}

/// A byte block with its little-endian 4-byte length prefix.
pub open spec fn len_prefixed(b: Seq<u8>) -> Seq<u8> {
    spec_u32_to_le_bytes(b.len() as u32) + b
}

/// The concatenation of the length-prefixed UTF-8 encodings of the roles.
pub open spec fn roles_bytes(rs: Seq<Seq<char>>) -> Seq<u8>
    decreases rs.len(),
{
    if rs.len() == 0 {
        Seq::empty()
    } else {
        len_prefixed(encode_utf8(rs[0])) + roles_bytes(rs.drop_first())
    }
}

/// A claim is encodable when each variable-length field fits its 4-byte
/// length prefix; this is the only machine limit of the payload format.
pub open spec fn claim_encodable(c: ClaimData) -> bool {
    &&& encode_utf8(c.login_name).len() <= u32::MAX
    &&& c.roles.len() <= u32::MAX
    &&& forall|i: int|
        0 <= i < c.roles.len() ==> encode_utf8(#[trigger] c.roles[i]).len() <= u32::MAX
}

/// The canonical payload encoding of a claim.
pub open spec fn payload_bytes(c: ClaimData) -> Seq<u8> {
    spec_u128_to_le_bytes(c.id) + spec_u64_to_le_bytes(c.valid_to) + len_prefixed(
        encode_utf8(c.login_name),
    ) + spec_u32_to_le_bytes(c.roles.len() as u32) + roles_bytes(c.roles)
}

/// Appending one role appends its length-prefixed block to the role bytes.
proof fn lemma_roles_bytes_push(rs: Seq<Seq<char>>, x: Seq<char>)
    ensures
        roles_bytes(rs.push(x)) == roles_bytes(rs) + len_prefixed(encode_utf8(x)),
    decreases rs.len(),
{
    if rs.len() == 0 {
        assert(rs.push(x)[0] == x);
        assert(rs.push(x).drop_first() =~= rs);
        assert(roles_bytes(rs.push(x)) =~= roles_bytes(rs) + len_prefixed(encode_utf8(x)));
    } else {
        assert(rs.push(x).drop_first() =~= rs.drop_first().push(x));
        assert(rs.push(x)[0] == rs[0]);
        lemma_roles_bytes_push(rs.drop_first(), x);
        assert(roles_bytes(rs.push(x)) =~= roles_bytes(rs) + len_prefixed(encode_utf8(x)));
    }
}

/// Builds the canonical payload encoding of a claim.
///
/// Returns `None` exactly when some variable-length field of the claim
/// does not fit its 4-byte length prefix.
pub fn encode_payload(c: &LoginClaim) -> (r: Option<Vec<u8>>)
    ensures
        match r {
            Some(v) => claim_encodable(c@) && v@ == payload_bytes(c@),
            None => !claim_encodable(c@),
        },
{
    proof {
        lemma_auto_spec_u128_to_from_le_bytes();
        lemma_auto_spec_u64_to_from_le_bytes();
        lemma_auto_spec_u32_to_from_le_bytes();
    }
    let mut out = u128_to_le_bytes(c.id);
    let mut vt = u64_to_le_bytes(c.valid_to);
    out.append(&mut vt);

    let name_bytes = c.login_name.as_str().as_bytes_vec();
    if name_bytes.len() > u32::MAX as usize {
        return None;
    }
    let mut nl = u32_to_le_bytes(name_bytes.len() as u32);
    out.append(&mut nl);
    let mut nb = name_bytes;
    out.append(&mut nb);

    if c.roles.len() > u32::MAX as usize {
        return None;
    }
    let mut cl = u32_to_le_bytes(c.roles.len() as u32);
    out.append(&mut cl);

    let ghost head = spec_u128_to_le_bytes(c@.id) + spec_u64_to_le_bytes(c@.valid_to)
        + len_prefixed(encode_utf8(c@.login_name)) + spec_u32_to_le_bytes(c@.roles.len() as u32);
    assert(out@ =~= head);

    let mut i: usize = 0;
    while i < c.roles.len()
        invariant
            i <= c.roles.len(),
            encode_utf8(c@.login_name).len() <= u32::MAX,
            c@.roles.len() <= u32::MAX,
            c@.roles == c.roles.deep_view(),
            forall|k: int| 0 <= k < i ==> encode_utf8(#[trigger] c@.roles[k]).len() <= u32::MAX,
            out@ == head + roles_bytes(c@.roles.take(i as int)),
        decreases c.roles.len() - i,
    {
        let rb = c.roles[i].as_str().as_bytes_vec();
        assert(rb@ == encode_utf8(c@.roles[i as int]));
        if rb.len() > u32::MAX as usize {
            assert(!claim_encodable(c@));
            return None;
        }
        proof {
            lemma_auto_spec_u32_to_from_le_bytes();
        }
        let mut rl = u32_to_le_bytes(rb.len() as u32);
        out.append(&mut rl);
        let mut rbm = rb;
        out.append(&mut rbm);
        proof {
            lemma_roles_bytes_push(c@.roles.take(i as int), c@.roles[i as int]);
            assert(c@.roles.take(i + 1) =~= c@.roles.take(i as int).push(c@.roles[i as int]));
            assert(out@ =~= head + roles_bytes(c@.roles.take(i + 1)));
        }
        i += 1;
    }
    assert(c@.roles.take(c.roles.len() as int) =~= c@.roles);
    assert(out@ =~= payload_bytes(c@));
    Some(out)
}

/// Relies on String::from_utf8: it succeeds exactly on valid UTF-8 input
/// and returns the string whose UTF-8 encoding is that input.
#[verifier::external_body]
pub(crate) fn bytes_to_string(v: Vec<u8>) -> (r: Option<String>)
    ensures
        match r {
            Some(s) => v@ == encode_utf8(s@),
            None => !valid_utf8(v@),
        },
{
    match String::from_utf8(v) {
        Ok(s) => Some(s),
        Err(_) => None,
    }
}

/// Where each field of an encodable claim stands inside its payload.
proof fn lemma_payload_structure(c: ClaimData, b: Seq<u8>)
    requires
        claim_encodable(c),
        b == payload_bytes(c),
    ensures
        b.len() >= 32 + encode_utf8(c.login_name).len(),
        b.subrange(0, 16) == spec_u128_to_le_bytes(c.id),
        b.subrange(16, 24) == spec_u64_to_le_bytes(c.valid_to),
        b.subrange(24, 28) == spec_u32_to_le_bytes(encode_utf8(c.login_name).len() as u32),
        b.subrange(28, 28 + encode_utf8(c.login_name).len() as int) == encode_utf8(c.login_name),
        b.subrange(
            28 + encode_utf8(c.login_name).len() as int,
            32 + encode_utf8(c.login_name).len() as int,
        ) == spec_u32_to_le_bytes(c.roles.len() as u32),
        b.subrange(32 + encode_utf8(c.login_name).len() as int, b.len() as int) == roles_bytes(c.roles),
{
    lemma_auto_spec_u128_to_from_le_bytes();
    lemma_auto_spec_u64_to_from_le_bytes();
    lemma_auto_spec_u32_to_from_le_bytes();
    let nb = encode_utf8(c.login_name);
    let l = nb.len() as int;
    assert(b.subrange(0, 16) =~= spec_u128_to_le_bytes(c.id));
    assert(b.subrange(16, 24) =~= spec_u64_to_le_bytes(c.valid_to));
    assert(b.subrange(24, 28) =~= spec_u32_to_le_bytes(nb.len() as u32));
    assert(b.subrange(28, 28 + l) =~= nb);
    assert(b.subrange(28 + l, 32 + l) =~= spec_u32_to_le_bytes(c.roles.len() as u32));
    assert(b.subrange(32 + l, b.len() as int) =~= roles_bytes(c.roles));
}

/// The head of a non-empty role section: its length prefix, its UTF-8
/// bytes, and the remaining role blocks after it.
proof fn lemma_roles_bytes_head(rs: Seq<Seq<char>>, t: Seq<u8>)
    requires
        t == roles_bytes(rs),
        rs.len() > 0,
        encode_utf8(rs[0]).len() <= u32::MAX,
    ensures
        t.len() >= 4 + encode_utf8(rs[0]).len(),
        t.subrange(0, 4) == spec_u32_to_le_bytes(encode_utf8(rs[0]).len() as u32),
        t.subrange(4, 4 + encode_utf8(rs[0]).len() as int) == encode_utf8(rs[0]),
        t.subrange(4 + encode_utf8(rs[0]).len() as int, t.len() as int) == roles_bytes(rs.drop_first()),
{
    lemma_auto_spec_u32_to_from_le_bytes();
    let e0 = encode_utf8(rs[0]);
    let l = e0.len() as int;
    assert(t.subrange(0, 4) =~= spec_u32_to_le_bytes(e0.len() as u32));
    assert(t.subrange(4, 4 + l) =~= e0);
    assert(t.subrange(4 + l, t.len() as int) =~= roles_bytes(rs.drop_first()));
}

/// The UTF-8 encoding is injective on character sequences.
proof fn lemma_encode_utf8_injective(x: Seq<char>, y: Seq<char>)
    requires
        encode_utf8(x) == encode_utf8(y),
    ensures
        x == y,
{
    encode_utf8_decode_utf8(x);
    encode_utf8_decode_utf8(y);
}

/// A role sequence whose encoding is a prefix of another role sequence's
/// encoding is an initial segment of it, and the remaining bytes encode the
/// remaining roles.
proof fn lemma_roles_bytes_prefix(rs1: Seq<Seq<char>>, rest: Seq<u8>, rs: Seq<Seq<char>>)
    requires
        roles_bytes(rs1) + rest == roles_bytes(rs),
        forall|i: int| 0 <= i < rs1.len() ==> encode_utf8(#[trigger] rs1[i]).len() <= u32::MAX,
        forall|i: int| 0 <= i < rs.len() ==> encode_utf8(#[trigger] rs[i]).len() <= u32::MAX,
    ensures
        rs1.len() <= rs.len(),
        rs1 == rs.take(rs1.len() as int),
        rest == roles_bytes(rs.skip(rs1.len() as int)),
    decreases rs1.len(),
{
    lemma_auto_spec_u32_to_from_le_bytes();
    if rs1.len() == 0 {
        assert(rs.take(0) =~= rs1);
        assert(rs.skip(0) =~= rs);
        assert(rest =~= roles_bytes(rs));
    } else {
        let w1 = roles_bytes(rs1);
        let w = roles_bytes(rs);
        lemma_roles_bytes_head(rs1, w1);
        if rs.len() == 0 {
            assert(w.len() == 0);
            assert(w1.len() >= 4);
            assert(w.len() == w1.len() + rest.len());
            assert(false);
        }
        lemma_roles_bytes_head(rs, w);
        let l1 = encode_utf8(rs1[0]).len() as int;
        let l = encode_utf8(rs[0]).len() as int;
        assert(w.subrange(0, 4) =~= w1.subrange(0, 4));
        assert(spec_u32_to_le_bytes(encode_utf8(rs1[0]).len() as u32) == spec_u32_to_le_bytes(
            encode_utf8(rs[0]).len() as u32,
        ));
        assert(l1 == l);
        assert(w.subrange(4, 4 + l) =~= w1.subrange(4, 4 + l1));
        lemma_encode_utf8_injective(rs1[0], rs[0]);
        assert(rs1[0] == rs[0]);
        assert(roles_bytes(rs1.drop_first()) + rest =~= roles_bytes(rs.drop_first())) by {
            assert(roles_bytes(rs1.drop_first()) =~= w1.subrange(4 + l1, w1.len() as int));
            assert(roles_bytes(rs.drop_first()) =~= w.subrange(4 + l, w.len() as int));
        }
        assert(forall|i: int|
            0 <= i < rs1.drop_first().len() ==> encode_utf8(
                #[trigger] rs1.drop_first()[i],
            ).len() <= u32::MAX);
        assert(forall|i: int|
            0 <= i < rs.drop_first().len() ==> encode_utf8(
                #[trigger] rs.drop_first()[i],
            ).len() <= u32::MAX);
        lemma_roles_bytes_prefix(rs1.drop_first(), rest, rs.drop_first());
        assert(rs1 =~= rs.take(rs1.len() as int)) by {
            assert(rs1.drop_first() == rs.drop_first().take(rs1.len() - 1));
            assert forall|k: int| 0 <= k < rs1.len() implies rs1[k] == rs.take(
                rs1.len() as int,
            )[k] by {
                if k > 0 {
                    assert(rs1[k] == rs1.drop_first()[k - 1]);
                    assert(rs1.drop_first()[k - 1] == rs.drop_first().take(rs1.len() - 1)[k - 1]);
                }
            }
        }
        assert(rs.skip(rs1.len() as int) =~= rs.drop_first().skip(rs1.len() - 1));
    }
}

/// Distinct encodable claims have distinct payloads: the canonical payload
/// encoding is injective.
pub proof fn lemma_payload_bytes_injective(c1: ClaimData, c2: ClaimData)
    requires
        claim_encodable(c1),
        claim_encodable(c2),
        payload_bytes(c1) == payload_bytes(c2),
    ensures
        c1 == c2,
{
    lemma_auto_spec_u128_to_from_le_bytes();
    lemma_auto_spec_u64_to_from_le_bytes();
    lemma_auto_spec_u32_to_from_le_bytes();
    let b = payload_bytes(c1);
    lemma_payload_structure(c1, b);
    lemma_payload_structure(c2, b);
    let l1 = encode_utf8(c1.login_name).len();
    let l2 = encode_utf8(c2.login_name).len();
    assert(spec_u32_to_le_bytes(l1 as u32) == spec_u32_to_le_bytes(l2 as u32));
    assert(l1 == l2);
    assert(c1.id == c2.id);
    assert(c1.valid_to == c2.valid_to);
    lemma_encode_utf8_injective(c1.login_name, c2.login_name);
    assert(spec_u32_to_le_bytes(c1.roles.len() as u32) == spec_u32_to_le_bytes(
        c2.roles.len() as u32,
    ));
    assert(c1.roles.len() == c2.roles.len());
    assert(roles_bytes(c1.roles) + Seq::<u8>::empty() =~= roles_bytes(c2.roles));
    lemma_roles_bytes_prefix(c1.roles, Seq::empty(), c2.roles);
    assert(c2.roles.take(c1.roles.len() as int) =~= c2.roles);
    assert(c1 =~~= c2);
}

/// Under the hypothesis that `b` is the payload of some encodable claim,
/// the parsed header fields and the role blocks read so far are forced to
/// agree with that claim.
proof fn lemma_hypothesis_alignment(
    c2: ClaimData,
    b: Seq<u8>,
    nl: int,
    m: int,
    acc: Seq<Seq<char>>,
    pos: int,
)
    requires
        claim_encodable(c2),
        b == payload_bytes(c2),
        0 <= nl <= u32::MAX,
        0 <= m <= u32::MAX,
        32 + nl <= pos <= b.len(),
        b.subrange(24, 28) == spec_u32_to_le_bytes(nl as u32),
        b.subrange(28 + nl, 32 + nl) == spec_u32_to_le_bytes(m as u32),
        b.subrange(32 + nl, pos) == roles_bytes(acc),
        forall|k: int| 0 <= k < acc.len() ==> encode_utf8(#[trigger] acc[k]).len() <= u32::MAX,
    ensures
        encode_utf8(c2.login_name).len() == nl,
        c2.roles.len() == m,
        acc.len() <= c2.roles.len(),
        acc == c2.roles.take(acc.len() as int),
        b.subrange(pos, b.len() as int) == roles_bytes(c2.roles.skip(acc.len() as int)),
{
    lemma_auto_spec_u32_to_from_le_bytes();
    lemma_payload_structure(c2, b);
    let l2 = encode_utf8(c2.login_name).len();
    assert(spec_u32_to_le_bytes(l2 as u32) == spec_u32_to_le_bytes(nl as u32));
    assert(l2 == nl);
    assert(spec_u32_to_le_bytes(c2.roles.len() as u32) == spec_u32_to_le_bytes(m as u32));
    assert(c2.roles.len() == m);
    assert(roles_bytes(acc) + b.subrange(pos, b.len() as int) =~= roles_bytes(c2.roles)) by {
        assert(b.subrange(32 + nl, b.len() as int) =~= b.subrange(32 + nl, pos) + b.subrange(
            pos,
            b.len() as int,
        ));
    }
    lemma_roles_bytes_prefix(acc, b.subrange(pos, b.len() as int), c2.roles);
}

/// Reads a claim back from its canonical payload encoding.
///
/// Returns `Some` exactly when the bytes are the payload of an encodable
/// claim, and then returns that claim; every other byte string is rejected.
pub fn parse_payload(b: &Vec<u8>) -> (r: Option<LoginClaim>)
    ensures
        match r {
            Some(c) => claim_encodable(c@) && b@ == payload_bytes(c@),
            None => forall|c2: ClaimData| claim_encodable(c2) ==> b@ != payload_bytes(c2),
        },
{
    proof {
        lemma_auto_spec_u128_to_from_le_bytes();
        lemma_auto_spec_u64_to_from_le_bytes();
        lemma_auto_spec_u32_to_from_le_bytes();
    }
    let n = b.len();
    let s = b.as_slice();
    if n < 32 {
        proof {
            assert forall|c2: ClaimData| claim_encodable(c2) implies b@ != payload_bytes(c2) by {
                if b@ == payload_bytes(c2) {
                    lemma_payload_structure(c2, b@);
                }
            }
        }
        return None;
    }
    let id = u128_from_le_bytes(slice_subrange(s, 0, 16));
    let valid_to = u64_from_le_bytes(slice_subrange(s, 16, 24));
    let nl32 = u32_from_le_bytes(slice_subrange(s, 24, 28));
    let nl = nl32 as usize;
    assert(nl as u32 == nl32);
    assert(b@.subrange(24, 28) == spec_u32_to_le_bytes(nl as u32));
    if n - 28 < nl {
        proof {
            assert forall|c2: ClaimData| claim_encodable(c2) implies b@ != payload_bytes(c2) by {
                if b@ == payload_bytes(c2) {
                    lemma_payload_structure(c2, b@);
                    let l2 = encode_utf8(c2.login_name).len();
                    assert(spec_u32_to_le_bytes(l2 as u32) == spec_u32_to_le_bytes(nl as u32));
                    assert(l2 == nl);
                }
            }
        }
        return None;
    }
    let name_vec = slice_to_vec(slice_subrange(s, 28, 28 + nl));
    let login_name = match bytes_to_string(name_vec) {
        Some(x) => x,
        None => {
            proof {
                assert forall|c2: ClaimData| claim_encodable(c2) implies b@ != payload_bytes(
                    c2,
                ) by {
                    if b@ == payload_bytes(c2) {
                        lemma_payload_structure(c2, b@);
                        let l2 = encode_utf8(c2.login_name).len();
                        assert(spec_u32_to_le_bytes(l2 as u32) == spec_u32_to_le_bytes(nl as u32));
                        assert(l2 == nl);
                        assert(b@.subrange(28, 28 + nl as int) == encode_utf8(c2.login_name));
                        encode_utf8_valid_utf8(c2.login_name);
                    }
                }
            }
            return None;
        },
    };
    assert(b@.subrange(28, 28 + nl as int) == encode_utf8(login_name@));
    if n - 28 - nl < 4 {
        proof {
            assert forall|c2: ClaimData| claim_encodable(c2) implies b@ != payload_bytes(c2) by {
                if b@ == payload_bytes(c2) {
                    lemma_payload_structure(c2, b@);
                    let l2 = encode_utf8(c2.login_name).len();
                    assert(spec_u32_to_le_bytes(l2 as u32) == spec_u32_to_le_bytes(nl as u32));
                    assert(l2 == nl);
                }
            }
        }
        return None;
    }
    let m32 = u32_from_le_bytes(slice_subrange(s, 28 + nl, 32 + nl));
    let m = m32 as usize;
    assert(m as u32 == m32);
    assert(b@.subrange(28 + nl as int, 32 + nl as int) == spec_u32_to_le_bytes(m as u32));

    let mut pos: usize = 32 + nl;
    let mut roles: Vec<String> = Vec::new();
    let mut j: usize = 0;
    assert(b@.subrange(pos as int, pos as int) =~= roles_bytes(roles.deep_view()));
    while j < m
        invariant
            n == b@.len(),
            s@ == b@,
            nl <= u32::MAX,
            m <= u32::MAX,
            32 + nl <= pos <= n,
            j <= m,
            roles.deep_view().len() == j,
            b@.subrange(24, 28) == spec_u32_to_le_bytes(nl as u32),
            b@.subrange(28 + nl as int, 32 + nl as int) == spec_u32_to_le_bytes(m as u32),
            b@.subrange(28, 28 + nl as int) == encode_utf8(login_name@),
            b@.subrange(32 + nl as int, pos as int) == roles_bytes(roles.deep_view()),
            forall|k: int|
                0 <= k < j ==> encode_utf8(#[trigger] roles.deep_view()[k]).len() <= u32::MAX,
        decreases m - j,
    {
        proof {
            lemma_auto_spec_u32_to_from_le_bytes();
        }
        if n - pos < 4 {
            proof {
                assert forall|c2: ClaimData| claim_encodable(c2) implies b@ != payload_bytes(
                    c2,
                ) by {
                    if b@ == payload_bytes(c2) {
                        lemma_hypothesis_alignment(
                            c2,
                            b@,
                            nl as int,
                            m as int,
                            roles.deep_view(),
                            pos as int,
                        );
                        let rem = c2.roles.skip(j as int);
                        assert(rem.len() > 0);
                        assert(encode_utf8(rem[0]).len() <= u32::MAX);
                        lemma_roles_bytes_head(rem, b@.subrange(pos as int, n as int));
                    }
                }
            }
            return None;
        }
        let rl32 = u32_from_le_bytes(slice_subrange(s, pos, pos + 4));
        let rl = rl32 as usize;
        assert(rl as u32 == rl32);
        assert(b@.subrange(pos as int, pos + 4) == spec_u32_to_le_bytes(rl as u32));
        if n - pos - 4 < rl {
            proof {
                assert forall|c2: ClaimData| claim_encodable(c2) implies b@ != payload_bytes(
                    c2,
                ) by {
                    if b@ == payload_bytes(c2) {
                        lemma_hypothesis_alignment(
                            c2,
                            b@,
                            nl as int,
                            m as int,
                            roles.deep_view(),
                            pos as int,
                        );
                        let rem = c2.roles.skip(j as int);
                        assert(rem.len() > 0);
                        assert(encode_utf8(rem[0]).len() <= u32::MAX);
                        lemma_roles_bytes_head(rem, b@.subrange(pos as int, n as int));
                        let l0 = encode_utf8(rem[0]).len();
                        assert(b@.subrange(pos as int, n as int).subrange(0, 4)
                            =~= b@.subrange(pos as int, pos + 4));
                        assert(spec_u32_to_le_bytes(l0 as u32) == spec_u32_to_le_bytes(rl as u32));
                        assert(l0 == rl);
                    }
                }
            }
            return None;
        }
        let rb = slice_to_vec(slice_subrange(s, pos + 4, pos + 4 + rl));
        let role = match bytes_to_string(rb) {
            Some(x) => x,
            None => {
                proof {
                    assert forall|c2: ClaimData| claim_encodable(c2) implies b@ != payload_bytes(
                        c2,
                    ) by {
                        if b@ == payload_bytes(c2) {
                            lemma_hypothesis_alignment(
                                c2,
                                b@,
                                nl as int,
                                m as int,
                                roles.deep_view(),
                                pos as int,
                            );
                            let rem = c2.roles.skip(j as int);
                            assert(rem.len() > 0);
                            assert(encode_utf8(rem[0]).len() <= u32::MAX);
                            lemma_roles_bytes_head(rem, b@.subrange(pos as int, n as int));
                            let l0 = encode_utf8(rem[0]).len();
                            assert(b@.subrange(pos as int, n as int).subrange(0, 4)
                                =~= b@.subrange(pos as int, pos + 4));
                            assert(spec_u32_to_le_bytes(l0 as u32) == spec_u32_to_le_bytes(
                                rl as u32,
                            ));
                            assert(l0 == rl);
                            assert(b@.subrange(pos as int, n as int).subrange(4, 4 + rl as int)
                                =~= b@.subrange(pos + 4, pos + 4 + rl));
                            assert(b@.subrange(pos + 4, pos + 4 + rl) == encode_utf8(rem[0]));
                            encode_utf8_valid_utf8(rem[0]);
                        }
                    }
                }
                return None;
            },
        };
        assert(b@.subrange(pos + 4, pos + 4 + rl) == encode_utf8(role@));
        proof {
            let ghost pre = roles.deep_view();
            lemma_roles_bytes_push(pre, role@);
        }
        let ghost pre = roles.deep_view();
        roles.push(role);
        assert(roles.deep_view() =~= pre.push(role@));
        assert(b@.subrange(32 + nl as int, pos + 4 + rl as int) =~= roles_bytes(
            roles.deep_view(),
        )) by {
            assert(b@.subrange(32 + nl as int, pos + 4 + rl as int) =~= b@.subrange(
                32 + nl as int,
                pos as int,
            ) + b@.subrange(pos as int, pos + 4) + b@.subrange(pos + 4, pos + 4 + rl));
            assert(roles_bytes(pre.push(role@)) == roles_bytes(pre) + len_prefixed(
                encode_utf8(role@),
            ));
            assert(encode_utf8(role@).len() == rl);
        }
        pos = pos + 4 + rl;
        j += 1;
    }
    if pos != n {
        proof {
            assert forall|c2: ClaimData| claim_encodable(c2) implies b@ != payload_bytes(c2) by {
                if b@ == payload_bytes(c2) {
                    lemma_hypothesis_alignment(
                        c2,
                        b@,
                        nl as int,
                        m as int,
                        roles.deep_view(),
                        pos as int,
                    );
                    assert(c2.roles.skip(m as int) =~= Seq::<Seq<char>>::empty());
                    assert(b@.subrange(pos as int, n as int).len() == 0);
                }
            }
        }
        return None;
    }
    let c = LoginClaim { id, login_name, valid_to, roles };
    proof {
        assert(b@.subrange(0, 16).len() == 16);
        assert(spec_u128_to_le_bytes(c@.id) == b@.subrange(0, 16));
        assert(b@.subrange(16, 24).len() == 8);
        assert(spec_u64_to_le_bytes(c@.valid_to) == b@.subrange(16, 24));
        assert(c@.roles.len() == m);
        assert(encode_utf8(c@.login_name).len() == nl);
        assert(claim_encodable(c@));
        assert(b@ =~= b@.subrange(0, 16) + b@.subrange(16, 24) + b@.subrange(24, 28) + b@.subrange(
            28,
            28 + nl as int,
        ) + b@.subrange(28 + nl as int, 32 + nl as int) + b@.subrange(32 + nl as int, n as int));
        assert(b@ =~= payload_bytes(c@));
    }
    Some(c)
}

} // verus!
