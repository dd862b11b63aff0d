//! The signed-claim token protocol: compact serialization, signing and
//! verification.
//!
//! A token is three dot-separated base64url segments over ASCII text:
//! a fixed header naming the keyed-hash algorithm, the claim payload, and
//! an HMAC-SHA-256 tag computed over the first two segments with the
//! process signing secret. Decoding recomputes the tag and rejects the
//! token on mismatch before it ever parses the payload, so a tampered
//! payload or signature is reported as a bad signature, and only
//! structurally broken tokens are reported as malformed.

use vstd::prelude::*;
use vstd::slice::slice_subrange;
use vstd::string::StrSliceExecFns;
use vstd::utf8::{
    encode_utf8,
    is_leading_byte_width_1,
    partial_valid_utf8_extend_ascii_block,
    valid_utf8,
};
use base64::Engine;
use hmac::Mac;
use crate::claim::{
    bytes_to_string,
    claim_encodable,
    encode_payload,
    parse_payload,
    payload_bytes,
    lemma_payload_bytes_injective,
    ClaimData,
    LoginClaim,
};

verus! {

/// The base64url character, as a byte, for one 6-bit group.
pub open spec fn b64url_char(x: u8) -> u8
    recommends
        x < 64,
{
    if x < 26 {
        (x + 65) as u8  // 'A'..'Z'
    } else if x < 52 {
        (x + 71) as u8  // 'a'..'z'
    } else if x < 62 {
        (x - 4) as u8  // '0'..'9'
    } else if x == 62 {
        45u8  // '-'
    } else {
        95u8  // '_'
    }
}

/// RFC 4648 base64url without padding, over the bytes of the encoded text.
pub open spec fn b64url_of(b: Seq<u8>) -> Seq<u8>
    decreases b.len(),
{
    if b.len() == 0 {
        Seq::empty()
    } else if b.len() == 1 {
        seq![
            b64url_char((b[0] / 4) as u8),
            b64url_char(((b[0] % 4) * 16) as u8),
        ]
    } else if b.len() == 2 {
        seq![
            b64url_char((b[0] / 4) as u8),
            b64url_char(((b[0] % 4) * 16 + b[1] / 16) as u8),
            b64url_char(((b[1] % 16) * 4) as u8),
        ]
    } else {
        seq![
            b64url_char((b[0] / 4) as u8),
            b64url_char(((b[0] % 4) * 16 + b[1] / 16) as u8),
            b64url_char(((b[1] % 16) * 4 + b[2] / 64) as u8),
            b64url_char((b[2] % 64) as u8),
        ] + b64url_of(b.skip(3))
    }
}

/// Every base64url character is ASCII and is not a dot.
proof fn lemma_b64url_char_text(x: u8)
    ensures
        b64url_char(x) != 46,
        b64url_char(x) < 128,
{
}

/// Base64url text never holds a dot and is pure ASCII.
proof fn lemma_b64url_text(b: Seq<u8>)
    ensures
        forall|k: int|
            0 <= k < b64url_of(b).len() ==> (#[trigger] b64url_of(b)[k]) != 46 && b64url_of(b)[k]
                < 128,
    decreases b.len(),
{
    let out = b64url_of(b);
    if b.len() == 0 {
    } else if b.len() <= 2 {
        assert forall|k: int| 0 <= k < out.len() implies out[k] != 46 && out[k] < 128 by {
            lemma_b64url_char_text((b[0] / 4) as u8);
            lemma_b64url_char_text(((b[0] % 4) * 16) as u8);
            if b.len() == 2 {
                lemma_b64url_char_text(((b[0] % 4) * 16 + b[1] / 16) as u8);
                lemma_b64url_char_text(((b[1] % 16) * 4) as u8);
            }
        }
    } else {
        lemma_b64url_text(b.skip(3));
        assert forall|k: int| 0 <= k < out.len() implies out[k] != 46 && out[k] < 128 by {
            lemma_b64url_char_text((b[0] / 4) as u8);
            lemma_b64url_char_text(((b[0] % 4) * 16 + b[1] / 16) as u8);
            lemma_b64url_char_text(((b[1] % 16) * 4 + b[2] / 64) as u8);
            lemma_b64url_char_text((b[2] % 64) as u8);
            if k >= 4 {
                assert(out[k] == b64url_of(b.skip(3))[k - 4]);
            }
        }
    }
}

/// The name of what HMAC-SHA-256 returns for a key and a message; the tag
/// is a function of the two alone.
pub uninterp spec fn hmac_sha256_of(key: Seq<u8>, msg: Seq<u8>) -> Seq<u8>;

/// Relies on the hmac and sha2 crates: `Hmac<Sha256>` accepts a key of any
/// length and returns the 32-byte HMAC-SHA-256 tag of the message, a pure
/// function of key and message.
#[verifier::external_body]
fn mac_tag(key: &[u8], msg: &[u8]) -> (r: Vec<u8>)
    ensures
        r@ == hmac_sha256_of(key@, msg@),
        r@.len() == 32,
{
    let mut mac = <hmac::Hmac<sha2::Sha256> as Mac>::new_from_slice(key).unwrap();
    mac.update(msg);
    mac.finalize().into_bytes().to_vec()
}

/// Relies on base64's `URL_SAFE_NO_PAD` engine: it writes RFC 4648
/// base64url without padding, which is what [`b64url_of`] states.
#[verifier::external_body]
fn b64url_encode(b: &[u8]) -> (r: Vec<u8>)
    ensures
        r@ == b64url_of(b@),
{
    base64::engine::general_purpose::URL_SAFE_NO_PAD.encode(b).into_bytes()
}

/// Relies on base64's `URL_SAFE_NO_PAD` engine: decoding rejects padding
/// and non-zero trailing bits, so it succeeds exactly on the canonical
/// encodings that [`b64url_of`] produces, and inverts it.
#[verifier::external_body]
fn b64url_decode(s: &[u8]) -> (r: Option<Vec<u8>>)
    ensures
        match r {
            Some(v) => s@ == b64url_of(v@),
            None => forall|v: Seq<u8>| s@ != b64url_of(v),
        },
{
    match base64::engine::general_purpose::URL_SAFE_NO_PAD.decode(s) {
        Ok(v) => Some(v),
        Err(_) => None,
    }
}

/// The fixed token header: the name of the signing algorithm.
pub open spec fn header_bytes() -> Seq<u8> {
    seq![72u8, 83u8, 50u8, 53u8, 54u8]  // "HS256"
}

/// Builds the fixed token header.
fn header_vec() -> (r: Vec<u8>)
    ensures
        r@ == header_bytes(),
{
    let mut v: Vec<u8> = Vec::new();
    v.push(72);
    v.push(83);
    v.push(50);
    v.push(53);
    v.push(54);
    proof {
        assert(v@ =~= header_bytes());
    }
    v
}

/// The bytes of the signed token of a claim under a signing key: header
/// segment, payload segment, and tag segment, dot-separated.
pub open spec fn token_bytes(c: ClaimData, key: Seq<u8>) -> Seq<u8> {
    let h = b64url_of(header_bytes());
    let p = b64url_of(payload_bytes(c));
    let signing_input = h + seq![46u8] + p;
    signing_input + seq![46u8] + b64url_of(hmac_sha256_of(key, signing_input))
}

/// The two dots of a well-formed token stand at `i` and `j`, nothing else
/// is a dot, and the part before the first dot is the expected header
/// segment.
pub open spec fn token_split_at(t: Seq<u8>, i: int, j: int) -> bool {
    &&& 0 <= i < j < t.len()
    &&& t[i] == 46
    &&& t[j] == 46
    &&& forall|k: int| 0 <= k < t.len() && k != i && k != j ==> t[k] != 46
    &&& t.subrange(0, i) == b64url_of(header_bytes())
}

/// A token is well-formed when it splits into exactly three dot-separated
/// segments and its header segment is the expected one.
pub open spec fn wf_token(t: Seq<u8>) -> bool {
    exists|i: int, j: int| token_split_at(t, i, j)
}

/// A well-formed token's signature segment is valid when it is the
/// base64url encoding of the HMAC-SHA-256 tag of everything before the
/// second dot.
pub open spec fn spec_sig_valid(t: Seq<u8>, key: Seq<u8>) -> bool {
    exists|i: int, j: int|
        token_split_at(t, i, j) && t.subrange(j + 1, t.len() as int) == b64url_of(
            hmac_sha256_of(key, t.subrange(0, j)),
        )
}

/// A token splits at one position pair only.
proof fn lemma_split_unique(t: Seq<u8>, i1: int, j1: int, i2: int, j2: int)
    requires
        token_split_at(t, i1, j1),
        token_split_at(t, i2, j2),
    ensures
        i1 == i2,
        j1 == j2,
{
    assert(t[i2] == 46 && t[j2] == 46);
}

/// Why a token cannot be decoded.
#[derive(Clone, Copy, Debug, PartialEq, Eq, Structural)]
pub enum DecodeError {
    /// The recomputed tag does not match the signature segment.
    BadSignature,
    /// The token does not have the three-segment shape, or its payload is
    /// not the encoding of any claim.
    Malformed,
}

/// The length of base64url text is determined by the input length.
proof fn lemma_b64url_len(b: Seq<u8>)
    ensures
        b.len() % 3 == 0 ==> b64url_of(b).len() == (b.len() / 3) * 4,
        b.len() % 3 == 1 ==> b64url_of(b).len() == (b.len() / 3) * 4 + 2,
        b.len() % 3 == 2 ==> b64url_of(b).len() == (b.len() / 3) * 4 + 3,
    decreases b.len(),
{
    if b.len() >= 3 {
        lemma_b64url_len(b.skip(3));
    }
}

/// A 6-bit group is recovered from its base64url character.
proof fn lemma_b64url_char_injective(x: u8, y: u8)
    requires
        x < 64,
        y < 64,
        b64url_char(x) == b64url_char(y),
    ensures
        x == y,
{
}

/// Base64url encoding is injective: equal encoded text means equal input
/// bytes.
proof fn lemma_b64url_injective(x: Seq<u8>, y: Seq<u8>)
    requires
        b64url_of(x) == b64url_of(y),
    ensures
        x == y,
    decreases x.len(),
{
    lemma_b64url_len(x);
    lemma_b64url_len(y);
    if x.len() == 0 {
        assert(y.len() == 0);
        assert(x =~= y);
    } else if x.len() == 1 {
        assert(y.len() == 1);
        assert(b64url_of(x)[0] == b64url_of(y)[0]);
        assert(b64url_of(x)[1] == b64url_of(y)[1]);
        lemma_b64url_char_injective((x[0] / 4) as u8, (y[0] / 4) as u8);
        lemma_b64url_char_injective(((x[0] % 4) * 16) as u8, ((y[0] % 4) * 16) as u8);
        assert(x =~= y);
    } else if x.len() == 2 {
        assert(y.len() == 2);
        assert(b64url_of(x) == seq![
            b64url_char((x[0] / 4) as u8),
            b64url_char(((x[0] % 4) * 16 + x[1] / 16) as u8),
            b64url_char(((x[1] % 16) * 4) as u8),
        ]);
        assert(b64url_of(y) == seq![
            b64url_char((y[0] / 4) as u8),
            b64url_char(((y[0] % 4) * 16 + y[1] / 16) as u8),
            b64url_char(((y[1] % 16) * 4) as u8),
        ]);
        assert(b64url_of(x)[0] == b64url_of(y)[0]);
        assert(b64url_of(x)[1] == b64url_of(y)[1]);
        assert(b64url_of(x)[2] == b64url_of(y)[2]);
        assert(b64url_char((x[0] / 4) as u8) == b64url_of(x)[0]);
        assert(b64url_char(((x[0] % 4) * 16 + x[1] / 16) as u8) == b64url_of(x)[1]);
        assert(b64url_char(((x[1] % 16) * 4) as u8) == b64url_of(x)[2]);
        assert(b64url_char((y[0] / 4) as u8) == b64url_of(y)[0]);
        assert(b64url_char(((y[0] % 4) * 16 + y[1] / 16) as u8) == b64url_of(y)[1]);
        assert(b64url_char(((y[1] % 16) * 4) as u8) == b64url_of(y)[2]);
        lemma_b64url_char_injective((x[0] / 4) as u8, (y[0] / 4) as u8);
        lemma_b64url_char_injective(
            ((x[0] % 4) * 16 + x[1] / 16) as u8,
            ((y[0] % 4) * 16 + y[1] / 16) as u8,
        );
        lemma_b64url_char_injective(((x[1] % 16) * 4) as u8, ((y[1] % 16) * 4) as u8);
        assert(x =~= y);
    } else {
        assert(y.len() >= 3);
        assert(b64url_of(x)[0] == b64url_of(y)[0]);
        assert(b64url_of(x)[1] == b64url_of(y)[1]);
        assert(b64url_of(x)[2] == b64url_of(y)[2]);
        assert(b64url_of(x)[3] == b64url_of(y)[3]);
        assert(b64url_of(x)[0] == b64url_char((x[0] / 4) as u8));
        assert(b64url_of(x)[1] == b64url_char(((x[0] % 4) * 16 + x[1] / 16) as u8));
        assert(b64url_of(x)[2] == b64url_char(((x[1] % 16) * 4 + x[2] / 64) as u8));
        assert(b64url_of(x)[3] == b64url_char((x[2] % 64) as u8));
        assert(b64url_of(y)[0] == b64url_char((y[0] / 4) as u8));
        assert(b64url_of(y)[1] == b64url_char(((y[0] % 4) * 16 + y[1] / 16) as u8));
        assert(b64url_of(y)[2] == b64url_char(((y[1] % 16) * 4 + y[2] / 64) as u8));
        assert(b64url_of(y)[3] == b64url_char((y[2] % 64) as u8));
        lemma_b64url_char_injective((x[0] / 4) as u8, (y[0] / 4) as u8);
        lemma_b64url_char_injective(
            ((x[0] % 4) * 16 + x[1] / 16) as u8,
            ((y[0] % 4) * 16 + y[1] / 16) as u8,
        );
        lemma_b64url_char_injective(
            ((x[1] % 16) * 4 + x[2] / 64) as u8,
            ((y[1] % 16) * 4 + y[2] / 64) as u8,
        );
        lemma_b64url_char_injective((x[2] % 64) as u8, (y[2] % 64) as u8);
        assert(x[0] == y[0]);
        assert(x[1] == y[1]);
        assert(x[2] == y[2]);
        assert(b64url_of(x.skip(3)) =~= b64url_of(y.skip(3))) by {
            assert(b64url_of(x.skip(3)) =~= b64url_of(x).subrange(4, b64url_of(x).len() as int));
            assert(b64url_of(y.skip(3)) =~= b64url_of(y).subrange(4, b64url_of(y).len() as int));
        }
        lemma_b64url_injective(x.skip(3), y.skip(3));
        assert forall|k: int| 0 <= k < x.len() implies x[k] == y[k] by {
            if k >= 3 {
                assert(x[k] == x.skip(3)[k - 3]);
                assert(y[k] == y.skip(3)[k - 3]);
            }
        }
        assert(x =~= y);
    }
}

/// Where the segments of a claim's token stand: the token is well-formed,
/// its payload segment encodes the claim's payload, and its signature
/// segment is valid.
proof fn lemma_token_structure(c: ClaimData, key: Seq<u8>, t: Seq<u8>)
    requires
        t == token_bytes(c, key),
    ensures
        ({
            let h = b64url_of(header_bytes());
            let p = b64url_of(payload_bytes(c));
            let i = h.len() as int;
            let j = i + 1 + p.len();
            &&& token_split_at(t, i, j)
            &&& t.subrange(i + 1, j) == p
            &&& t.subrange(0, j) == h + seq![46u8] + p
            &&& t.subrange(j + 1, t.len() as int) == b64url_of(
                hmac_sha256_of(key, t.subrange(0, j)),
            )
            &&& wf_token(t)
            &&& spec_sig_valid(t, key)
        }),
{
    let h = b64url_of(header_bytes());
    let p = b64url_of(payload_bytes(c));
    let si = h + seq![46u8] + p;
    let g = b64url_of(hmac_sha256_of(key, si));
    let i = h.len() as int;
    let j = i + 1 + p.len();
    lemma_b64url_text(header_bytes());
    lemma_b64url_text(payload_bytes(c));
    lemma_b64url_text(hmac_sha256_of(key, si));
    assert(t.len() == si.len() + 1 + g.len());
    assert(t[i] == 46);
    assert(t[j] == 46);
    assert(t.subrange(0, i) =~= h);
    assert(t.subrange(i + 1, j) =~= p);
    assert(t.subrange(0, j) =~= si);
    assert(t.subrange(j + 1, t.len() as int) =~= g);
    assert forall|k: int| 0 <= k < t.len() && k != i && k != j implies t[k] != 46 by {
        if k < i {
            assert(t[k] == h[k]);
        } else if k < j {
            assert(t[k] == p[k - i - 1]);
        } else {
            assert(t[k] == g[k - j - 1]);
        }
    }
    assert(token_split_at(t, i, j));
}

/// Compares two byte strings in full: the loop inspects every byte, with
/// no data-dependent early exit, so the comparison time depends only on
/// the lengths.
fn bytes_eq(a: &[u8], b: &[u8]) -> (r: bool)
    ensures
        r == (a@ == b@),
{
    if a.len() != b.len() {
        return false;
    }
    let n = a.len();
    let mut diff: u8 = 0;
    let mut i: usize = 0;
    assert(a@.subrange(0, 0) =~= b@.subrange(0, 0));
    while i < n
        invariant
            n == a@.len() == b@.len(),
            i <= n,
            (diff == 0) == (a@.subrange(0, i as int) == b@.subrange(0, i as int)),
        decreases n - i,
    {
        let ai = a[i];
        let bi = b[i];
        let pre = diff;
        diff = diff | (ai ^ bi);
        proof {
            assert(((pre | (ai ^ bi)) == 0) <==> (pre == 0 && ai == bi)) by (bit_vector);
            if diff == 0 {
                assert(a@.subrange(0, i + 1) =~= b@.subrange(0, i + 1));
            } else {
                if a@.subrange(0, i + 1) == b@.subrange(0, i + 1) {
                    assert(a@[i as int] == a@.subrange(0, i + 1)[i as int]);
                    assert(a@.subrange(0, i as int) =~= a@.subrange(0, i + 1).subrange(
                        0,
                        i as int,
                    ));
                    assert(b@.subrange(0, i as int) =~= b@.subrange(0, i + 1).subrange(
                        0,
                        i as int,
                    ));
                    assert(false);
                }
            }
        }
        i += 1;
    }
    proof {
        assert(a@.subrange(0, n as int) =~= a@);
        assert(b@.subrange(0, n as int) =~= b@);
    }
    diff == 0
}

/// Builds and signs the compact token of a claim under the signing secret.
///
/// Returns `None` exactly when the claim does not fit the payload format's
/// 4-byte length prefixes; every other claim is issued.
pub fn issue(claim: &LoginClaim, secret: &[u8]) -> (r: Option<String>)
    ensures
        match r {
            Some(t) => claim_encodable(claim@) && encode_utf8(t@) == token_bytes(
                claim@,
                secret@,
            ),
            None => !claim_encodable(claim@),
        },
{
    let payload = match encode_payload(claim) {
        Some(p) => p,
        None => {
            return None;
        },
    };
    let hv = header_vec();
    let mut t = b64url_encode(hv.as_slice());
    t.push(46);
    let mut pseg = b64url_encode(payload.as_slice());
    t.append(&mut pseg);
    let ghost si = b64url_of(header_bytes()) + seq![46u8] + b64url_of(payload_bytes(claim@));
    assert(t@ =~= si);
    let mac = mac_tag(secret, t.as_slice());
    t.push(46);
    let mut sseg = b64url_encode(mac.as_slice());
    t.append(&mut sseg);
    assert(t@ =~= token_bytes(claim@, secret@));
    proof {
        lemma_b64url_text(header_bytes());
        lemma_b64url_text(payload_bytes(claim@));
        lemma_b64url_text(hmac_sha256_of(secret@, si));
        lemma_token_structure(claim@, secret@, t@);
        assert forall|k: int| 0 <= k < t@.len() implies is_leading_byte_width_1(t@[k]) by {
            let h = b64url_of(header_bytes());
            let p = b64url_of(payload_bytes(claim@));
            let g = b64url_of(hmac_sha256_of(secret@, si));
            let i = h.len() as int;
            let j = i + 1 + p.len();
            if k == i || k == j {
                assert(t@[k] == 46);
            } else if k < i {
                assert(t@[k] == h[k]);
            } else if k < j {
                assert(t@[k] == p[k - i - 1]);
            } else {
                assert(t@[k] == g[k - j - 1]);
            }
        }
        assert(t@.subrange(0, 0) =~= Seq::<u8>::empty());
        assert(valid_utf8(t@.subrange(0, 0)));
        partial_valid_utf8_extend_ascii_block(t@, 0, t@.len() as int);
        assert(t@.subrange(0, t@.len() as int) =~= t@);
        assert(valid_utf8(t@));
    }
    let ghost tg = t@;
    match bytes_to_string(t) {
        Some(s) => {
            assert(encode_utf8(s@) == token_bytes(claim@, secret@));
            Some(s)
        },
        None => {
            assert(!valid_utf8(tg));
            assert(false);
            None
        },
    }
}

/// Splits the token, recomputes the HMAC-SHA-256 tag over the first two
/// segments, and only after the tag matched decodes and parses the
/// payload.
///
/// Returns the one claim whose signed token this is; rejects a mismatched
/// or undecodable signature segment as `BadSignature`, and a token without
/// the three-segment shape, or whose payload is not the encoding of any
/// claim, as `Malformed`. Expiry is not checked here: that is the guard's
/// responsibility.
pub fn decode(token: &str, secret: &[u8]) -> (r: Result<LoginClaim, DecodeError>)
    ensures
        (match r {
            Ok(c) => claim_encodable(c@) && encode_utf8(token@) == token_bytes(c@, secret@),
            Err(e) => (e == DecodeError::BadSignature <==> wf_token(encode_utf8(token@))
                && !spec_sig_valid(encode_utf8(token@), secret@)),
        }),
        forall|c2: ClaimData|
            claim_encodable(c2) && encode_utf8(token@) == token_bytes(c2, secret@) ==> (r matches Ok(c)
                && c@ == c2),
{
    let tb = token.as_bytes_vec();
    let ghost t = tb@;
    let n = tb.len();
    proof {
        lemma_b64url_text(header_bytes());
    }

    // Find the dot positions; a well-formed token has exactly two.
    let mut d1: usize = 0;
    let mut have1 = false;
    let mut d2: usize = 0;
    let mut have2 = false;
    let mut extra = false;
    let mut k: usize = 0;
    while k < n
        invariant
            n == t.len(),
            tb@ == t,
            k <= n,
            !have1 ==> !have2 && !extra && (forall|q: int| 0 <= q < k ==> t[q] != 46),
            have1 && !have2 ==> !extra && d1 < k && t[d1 as int] == 46 && (forall|q: int|
                0 <= q < k && q != d1 ==> t[q] != 46),
            have2 ==> have1 && d1 < d2 < k && t[d1 as int] == 46 && t[d2 as int] == 46,
            have2 && !extra ==> (forall|q: int|
                0 <= q < k && q != d1 && q != d2 ==> t[q] != 46),
            extra ==> have2 && exists|q: int|
                0 <= q < k && q != d1 && q != d2 && t[q] == 46,
        decreases n - k,
    {
        if tb[k] == 46 {
            if !have1 {
                d1 = k;
                have1 = true;
            } else if !have2 {
                d2 = k;
                have2 = true;
            } else {
                extra = true;
            }
        }
        k += 1;
    }

    if !have2 || extra {
        proof {
            assert(!wf_token(t)) by {
                if wf_token(t) {
                    let (i, j) = choose|i: int, j: int| token_split_at(t, i, j);
                    assert(token_split_at(t, i, j));
                    if !have2 {
                        assert(t[i] == 46 && t[j] == 46);
                        assert(false);
                    } else {
                        let q = choose|q: int|
                            0 <= q < n && q != d1 && q != d2 && t[q] == 46;
                        assert(t[q] == 46);
                        assert(q == i || q == j);
                        assert(t[d1 as int] == 46 && t[d2 as int] == 46);
                        assert(d1 == i || d1 == j);
                        assert(d2 == i || d2 == j);
                        assert(false);
                    }
                }
            }
            assert forall|c2: ClaimData|
                claim_encodable(c2) implies t != token_bytes(c2, secret@) by {
                if t == token_bytes(c2, secret@) {
                    lemma_token_structure(c2, secret@, t);
                }
            }
        }
        return Err(DecodeError::Malformed);
    }

    // Hold the header segment against the expected one.
    let hv = header_vec();
    let he = b64url_encode(hv.as_slice());
    let hseg = slice_subrange(tb.as_slice(), 0, d1);
    if !bytes_eq(hseg, he.as_slice()) {
        proof {
            assert(!wf_token(t)) by {
                if wf_token(t) {
                    let (i, j) = choose|i: int, j: int| token_split_at(t, i, j);
                    assert(token_split_at(t, i, j));
                    assert(d1 == i || d1 == j);
                    assert(d2 == i || d2 == j);
                    assert(i == d1 && j == d2);
                    assert(t.subrange(0, d1 as int) == b64url_of(header_bytes()));
                    assert(false);
                }
            }
            assert forall|c2: ClaimData|
                claim_encodable(c2) implies t != token_bytes(c2, secret@) by {
                if t == token_bytes(c2, secret@) {
                    lemma_token_structure(c2, secret@, t);
                }
            }
        }
        return Err(DecodeError::Malformed);
    }
    assert(token_split_at(t, d1 as int, d2 as int));
    assert(wf_token(t));

    // Recompute the tag over everything before the second dot and hold the
    // signature segment against its encoding.
    let signing = slice_subrange(tb.as_slice(), 0, d2);
    let mac = mac_tag(secret, signing);
    let expected = b64url_encode(mac.as_slice());
    let actual = slice_subrange(tb.as_slice(), d2 + 1, n);
    let sig_matches = bytes_eq(actual, expected.as_slice());
    proof {
        if sig_matches {
            assert(spec_sig_valid(t, secret@));
        } else {
            assert(!spec_sig_valid(t, secret@)) by {
                if spec_sig_valid(t, secret@) {
                    let (i, j) = choose|i: int, j: int|
                        token_split_at(t, i, j) && t.subrange(j + 1, t.len() as int)
                            == b64url_of(hmac_sha256_of(secret@, t.subrange(0, j)));
                    lemma_split_unique(t, i, j, d1 as int, d2 as int);
                    assert(false);
                }
            }
        }
    }
    if !sig_matches {
        proof {
            assert forall|c2: ClaimData|
                claim_encodable(c2) implies t != token_bytes(c2, secret@) by {
                if t == token_bytes(c2, secret@) {
                    lemma_token_structure(c2, secret@, t);
                }
            }
        }
        return Err(DecodeError::BadSignature);
    }

    // The signature is valid; only now read the payload segment.
    let pseg = slice_subrange(tb.as_slice(), d1 + 1, d2);
    let pv = match b64url_decode(pseg) {
        Some(v) => v,
        None => {
            proof {
                assert forall|c2: ClaimData|
                    claim_encodable(c2) implies t != token_bytes(c2, secret@) by {
                    if t == token_bytes(c2, secret@) {
                        lemma_token_structure(c2, secret@, t);
                        let h = b64url_of(header_bytes());
                        let p = b64url_of(payload_bytes(c2));
                        let i = h.len() as int;
                        let j = i + 1 + p.len();
                        lemma_split_unique(t, i, j, d1 as int, d2 as int);
                        assert(t.subrange(d1 + 1, d2 as int) == b64url_of(payload_bytes(c2)));
                        assert(false);
                    }
                }
            }
            return Err(DecodeError::Malformed);
        },
    };
    assert(t.subrange(d1 + 1, d2 as int) == b64url_of(pv@));
    match parse_payload(&pv) {
        Some(c) => {
            proof {
                assert(t =~= t.subrange(0, d1 as int) + seq![46u8] + t.subrange(
                    d1 + 1,
                    d2 as int,
                ) + seq![46u8] + t.subrange(d2 + 1, n as int));
                assert(t.subrange(0, d2 as int) =~= t.subrange(0, d1 as int) + seq![46u8]
                    + t.subrange(d1 + 1, d2 as int));
                assert(t == token_bytes(c@, secret@));
                assert forall|c2: ClaimData|
                    claim_encodable(c2) && t == token_bytes(c2, secret@) implies c2 == c@ by {
                    assert(b64url_of(payload_bytes(c2)) == b64url_of(payload_bytes(c@))) by {
                        lemma_token_structure(c2, secret@, t);
                        let h = b64url_of(header_bytes());
                        let p = b64url_of(payload_bytes(c2));
                        let i = h.len() as int;
                        let j = i + 1 + p.len();
                        lemma_split_unique(t, i, j, d1 as int, d2 as int);
                        assert(t.subrange(d1 + 1, d2 as int) == b64url_of(payload_bytes(c2)));
                    }
                    lemma_b64url_injective(payload_bytes(c2), payload_bytes(c@));
                    lemma_payload_bytes_injective(c2, c@);
                }
            }
            Ok(c)
        },
        None => {
            proof {
                assert forall|c2: ClaimData|
                    claim_encodable(c2) implies t != token_bytes(c2, secret@) by {
                    if t == token_bytes(c2, secret@) {
                        lemma_token_structure(c2, secret@, t);
                        let h = b64url_of(header_bytes());
                        let p = b64url_of(payload_bytes(c2));
                        let i = h.len() as int;
                        let j = i + 1 + p.len();
                        lemma_split_unique(t, i, j, d1 as int, d2 as int);
                        assert(t.subrange(d1 + 1, d2 as int) == b64url_of(payload_bytes(c2)));
                        lemma_b64url_injective(pv@, payload_bytes(c2));
                        assert(false);
                    }
                }
            }
            return Err(DecodeError::Malformed);
        },
    }
}

/// Distinct encodable claims have distinct tokens under the same key: the
/// whole compact serialization is injective, so a decoded token identifies
/// its claim uniquely.
pub proof fn lemma_token_bytes_injective(c1: ClaimData, c2: ClaimData, key: Seq<u8>)
    requires
        claim_encodable(c1),
        claim_encodable(c2),
        token_bytes(c1, key) == token_bytes(c2, key),
    ensures
        c1 == c2,
{
    let t = token_bytes(c1, key);
    lemma_token_structure(c1, key, t);
    lemma_token_structure(c2, key, t);
    let h = b64url_of(header_bytes());
    let i = h.len() as int;
    let j1 = i + 1 + b64url_of(payload_bytes(c1)).len();
    let j2 = i + 1 + b64url_of(payload_bytes(c2)).len();
    lemma_split_unique(t, i, j1, i, j2);
    assert(t.subrange(i + 1, j1) == b64url_of(payload_bytes(c1)));
    assert(t.subrange(i + 1, j2) == b64url_of(payload_bytes(c2)));
    lemma_b64url_injective(payload_bytes(c1), payload_bytes(c2));
    lemma_payload_bytes_injective(c1, c2);
}

} // verus!



