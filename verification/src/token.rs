//! The token codec: signed, expiring identity assertions. A token is
//! `b64url(subject) "." b64url(role) "." expiry "." hex(tag)`, where the
//! tag is the HMAC-SHA-256 of everything before the last dot under the
//! server secret. Tokens are stateless: the server keeps no record, so
//! validity rests entirely on the signature and the expiry field.
use vstd::prelude::*;
use vstd::utf8::{valid_utf8, decode_utf8, encode_utf8};
use crate::base64url::{b64_encode, b64_decode, b64_encode_bytes, b64_decode_bytes,
    lemma_encode_alphabet};
use crate::bytestr::{ascii_seq, lemma_ascii_utf8, lemma_ascii_concat, split_on, split_on_bytes,
    lemma_split_join, lemma_split_single, lemma_split_concat, append_bytes, bytes_to_string,
    ct_eq_bytes};
use crate::crypto::{hmac_sha256, hmac_sha256_tag, hex_of, hex_encode, lemma_hex_alphabet};
use crate::decimal::{dec_digits_of, dec_val, all_dec_digits, u64_to_dec, parse_dec,
    lemma_dec_digits_shape};
use crate::errors::AuthError;

verus! {

/// The token lifetime used by the login flow.
pub const TOKEN_TTL_MINUTES: u64 = 60;

/// The signed subject/role/expiry triple carried by a token.
#[derive(Debug, Clone)]
pub struct Claims {
    pub sub: String,
    pub role: String,
    pub exp: u64,
}

/// The bytes covered by the signature: both base64url-framed fields and
/// the decimal expiry, dot-separated.
pub open spec fn signing_input_of(sub_b: Seq<u8>, role_b: Seq<u8>, exp: nat) -> Seq<u8> {
    b64_encode(sub_b) + seq![46u8] + b64_encode(role_b) + seq![46u8] + dec_digits_of(exp)
}

/// The full token: signing input, a dot, and the hex-encoded tag.
pub open spec fn token_bytes_of(sub_b: Seq<u8>, role_b: Seq<u8>, exp: nat, key: Seq<u8>) -> Seq<
    u8,
> {
    let p = signing_input_of(sub_b, role_b, exp);
    p + seq![46u8] + hex_of(hmac_sha256(key, p))
}

/// The issued token as a character string.
pub open spec fn token_chars_of(sub: Seq<char>, role: Seq<char>, exp: nat, secret: Seq<char>)
    -> Seq<char> {
    decode_utf8(token_bytes_of(encode_utf8(sub), encode_utf8(role), exp, encode_utf8(secret)))
}

/// What validation of a token's bytes yields: the claims as character
/// sequences and the expiry, or the error. The signature is checked
/// before anything else; every structural defect is an invalid
/// signature, and only a token whose signature matches can be expired.
pub open spec fn spec_validate(t: Seq<u8>, key: Seq<u8>, now: u64) -> Result<
    (Seq<char>, Seq<char>, u64),
    AuthError,
> {
    let parts = split_on(t, 46);
    if parts.len() != 4 {
        Err(AuthError::InvalidSignature)
    } else {
        let payload = parts[0] + seq![46u8] + parts[1] + seq![46u8] + parts[2];
        if parts[3] != hex_of(hmac_sha256(key, payload)) {
            Err(AuthError::InvalidSignature)
        } else {
            match (b64_decode(parts[0]), b64_decode(parts[1])) {
                (Some(sub_b), Some(role_b)) => {
                    if parts[2].len() > 0 && all_dec_digits(parts[2]) && dec_val(parts[2])
                        <= u64::MAX && valid_utf8(sub_b) && valid_utf8(role_b) {
                        if dec_val(parts[2]) > now {
                            Ok((decode_utf8(sub_b), decode_utf8(role_b), dec_val(parts[2]) as u64))
                        } else {
                            Err(AuthError::Expired)
                        }
                    } else {
                        Err(AuthError::InvalidSignature)
                    }
                },
                _ => Err(AuthError::InvalidSignature),
            }
        }
    }
}

/// How a well-formed token splits on dots: exactly its four pieces.
pub proof fn lemma_token_split(sub_b: Seq<u8>, role_b: Seq<u8>, exp: nat, key: Seq<u8>)
    ensures
        ({
            let a = b64_encode(sub_b);
            let b = b64_encode(role_b);
            let c = dec_digits_of(exp);
            let p = signing_input_of(sub_b, role_b, exp);
            let d = hex_of(hmac_sha256(key, p));
            &&& split_on(token_bytes_of(sub_b, role_b, exp, key), 46) == seq![a, b, c, d]
            &&& ascii_seq(token_bytes_of(sub_b, role_b, exp, key))
        }),
{
    let a = b64_encode(sub_b);
    let b = b64_encode(role_b);
    let c = dec_digits_of(exp);
    let p = signing_input_of(sub_b, role_b, exp);
    let d = hex_of(hmac_sha256(key, p));
    let t = token_bytes_of(sub_b, role_b, exp, key);
    lemma_encode_alphabet(sub_b);
    lemma_encode_alphabet(role_b);
    lemma_dec_digits_shape(exp);
    lemma_hex_alphabet(hmac_sha256(key, p));
    assert(forall|j: int| 0 <= j < c.len() ==> c[j] != 46 && c[j] < 128);
    let r1 = b + seq![46u8] + (c + seq![46u8] + d);
    let r2 = c + seq![46u8] + d;
    assert(t =~= a + seq![46u8] + r1);
    lemma_split_join(a, r1, 46);
    assert(r1 =~= b + seq![46u8] + r2);
    lemma_split_join(b, r2, 46);
    lemma_split_join(c, d, 46);
    lemma_split_single(d, 46);
    assert(split_on(t, 46) =~= seq![a, b, c, d]);
    lemma_ascii_concat(a, seq![46u8]);
    lemma_ascii_concat(a + seq![46u8], b);
    lemma_ascii_concat(a + seq![46u8] + b, seq![46u8]);
    lemma_ascii_concat(a + seq![46u8] + b + seq![46u8], c);
    assert(p =~= a + seq![46u8] + b + seq![46u8] + c);
    lemma_ascii_concat(p, seq![46u8]);
    lemma_ascii_concat(p + seq![46u8], d);
    assert(t =~= p + seq![46u8] + d);
}

/// Issuing and then validating under the same secret yields the same
/// subject and role while the token is not expired, and exactly
/// `Expired` afterwards.
pub proof fn lemma_issue_validate(
    sub: Seq<char>,
    role: Seq<char>,
    secret: Seq<char>,
    exp: nat,
    now: u64,
)
    requires
        exp <= u64::MAX,
    ensures
        ({
            let t = token_bytes_of(encode_utf8(sub), encode_utf8(role), exp, encode_utf8(secret));
            spec_validate(t, encode_utf8(secret), now) == (if exp > now {
                Ok::<(Seq<char>, Seq<char>, u64), AuthError>((sub, role, exp as u64))
            } else {
                Err::<(Seq<char>, Seq<char>, u64), AuthError>(AuthError::Expired)
            })
        }),
{
    let sub_b = encode_utf8(sub);
    let role_b = encode_utf8(role);
    let key = encode_utf8(secret);
    let t = token_bytes_of(sub_b, role_b, exp, key);
    let p = signing_input_of(sub_b, role_b, exp);
    lemma_token_split(sub_b, role_b, exp, key);
    let parts = split_on(t, 46);
    assert(parts.len() == 4);
    assert(parts[0] + seq![46u8] + parts[1] + seq![46u8] + parts[2] =~= p);
    crate::base64url::lemma_b64_round_trip(sub_b);
    crate::base64url::lemma_b64_round_trip(role_b);
    lemma_dec_digits_shape(exp);
    vstd::utf8::encode_utf8_valid_utf8(sub);
    vstd::utf8::encode_utf8_valid_utf8(role);
    vstd::utf8::encode_utf8_decode_utf8(sub);
    vstd::utf8::encode_utf8_decode_utf8(role);
}

/// Altering any single byte of an issued token makes validation fail
/// with `InvalidSignature` — never `Expired`, and never success. For a
/// byte inside the signed payload the claim needs the altered payload's
/// tag to differ from the original's, which the hypothesis states; for
/// every other byte (the signature region and the separators) it holds
/// outright. That the failure is not observable through timing is a
/// property of the comparison routine (`ct_eq_bytes`), not of this
/// lemma.
#[verifier::rlimit(100)]
#[verifier::spinoff_prover]
pub proof fn lemma_token_tamper(
    sub_b: Seq<u8>,
    role_b: Seq<u8>,
    exp: nat,
    key: Seq<u8>,
    i: int,
    w: u8,
    now: u64,
)
    requires
        0 <= i < token_bytes_of(sub_b, role_b, exp, key).len(),
        w != token_bytes_of(sub_b, role_b, exp, key)[i],
        (i < signing_input_of(sub_b, role_b, exp).len() && token_bytes_of(
            sub_b,
            role_b,
            exp,
            key,
        )[i] != 46 && w != 46) ==> hmac_sha256(
            key,
            signing_input_of(sub_b, role_b, exp).update(i, w),
        ) != hmac_sha256(key, signing_input_of(sub_b, role_b, exp)),
    ensures
        spec_validate(token_bytes_of(sub_b, role_b, exp, key).update(i, w), key, now) == Err::<
            (Seq<char>, Seq<char>, u64),
            AuthError,
        >(AuthError::InvalidSignature),
{
    let a = b64_encode(sub_b);
    let b = b64_encode(role_b);
    let g = dec_digits_of(exp);
    let p = signing_input_of(sub_b, role_b, exp);
    let d = hex_of(hmac_sha256(key, p));
    let t = token_bytes_of(sub_b, role_b, exp, key);
    let t2 = t.update(i, w);
    let al = a.len() as int;
    let d2i = al + 1 + b.len();
    lemma_encode_alphabet(sub_b);
    lemma_encode_alphabet(role_b);
    lemma_dec_digits_shape(exp);
    crate::crypto::lemma_hex_alphabet(hmac_sha256(key, p));
    assert(forall|j: int| 0 <= j < g.len() ==> g[j] != 46);
    assert(p =~= a + seq![46u8] + b + seq![46u8] + g);
    assert(t =~= p + seq![46u8] + d);
    assert forall|j: int| 0 <= j < p.len() implies t[j] == p[j] by {}
    assert(t[p.len() as int] == 46);
    assert forall|j: int| p.len() < j < t.len() implies t[j] == d[j - p.len() - 1] by {}
    assert forall|j: int| 0 <= j < al implies p[j] == a[j] by {}
    assert(p[al] == 46);
    assert forall|j: int| al < j < d2i implies p[j] == b[j - al - 1] by {}
    assert(p[d2i] == 46);
    assert forall|j: int| d2i < j < p.len() implies p[j] == g[j - d2i - 1] by {}
    if i < p.len() {
        let p2 = p.update(i, w);
        assert(t2 =~= p2 + seq![46u8] + d);
        lemma_split_concat(p2, d, 46);
        lemma_split_single(d, 46);
        assert(split_on(t2, 46) == split_on(p2, 46) + seq![d]);
        if t[i] == 46 {
            assert(i == al || i == d2i);
            if i == al {
                let x = a + seq![w] + b;
                assert(p2 =~= x + seq![46u8] + g);
                assert(forall|j: int| 0 <= j < x.len() ==> x[j] != 46);
                lemma_split_join(x, g, 46);
                lemma_split_single(g, 46);
                assert(split_on(p2, 46) == seq![x] + seq![g]);
                assert(split_on(t2, 46).len() == 3);
            } else {
                let x = b + seq![w] + g;
                assert(p2 =~= a + seq![46u8] + x);
                assert(forall|j: int| 0 <= j < x.len() ==> x[j] != 46);
                lemma_split_join(a, x, 46);
                lemma_split_single(x, 46);
                assert(split_on(p2, 46) == seq![a] + seq![x]);
                assert(split_on(t2, 46).len() == 3);
            }
        } else if w == 46 {
            if i < al {
                let a2 = a.update(i, w);
                assert(p2 =~= a2 + seq![46u8] + (b + seq![46u8] + g));
                lemma_split_concat(a2, b + seq![46u8] + g, 46);
                lemma_split_join(b, g, 46);
                lemma_split_single(g, 46);
                crate::bytestr::lemma_split_sep_inside(a2, 46, i);
                assert(split_on(t2, 46).len() >= 5);
            } else if i < d2i {
                let b2 = b.update(i - al - 1, w);
                assert(p2 =~= a + seq![46u8] + (b2 + seq![46u8] + g));
                lemma_split_join(a, b2 + seq![46u8] + g, 46);
                lemma_split_concat(b2, g, 46);
                lemma_split_single(g, 46);
                crate::bytestr::lemma_split_sep_inside(b2, 46, i - al - 1);
                assert(split_on(t2, 46).len() >= 5);
            } else {
                let g2 = g.update(i - d2i - 1, w);
                assert(p2 =~= a + seq![46u8] + (b + seq![46u8] + g2));
                lemma_split_join(a, b + seq![46u8] + g2, 46);
                lemma_split_join(b, g2, 46);
                crate::bytestr::lemma_split_sep_inside(g2, 46, i - d2i - 1);
                assert(split_on(t2, 46).len() >= 5);
            }
        } else {
            if i < al {
                let a2 = a.update(i, w);
                assert(forall|j: int| 0 <= j < a2.len() ==> a2[j] != 46);
                assert(p2 =~= a2 + seq![46u8] + (b + seq![46u8] + g));
                lemma_split_join(a2, b + seq![46u8] + g, 46);
                lemma_split_join(b, g, 46);
                lemma_split_single(g, 46);
                assert(split_on(p2, 46) == seq![a2] + (seq![b] + seq![g]));
                assert(split_on(t2, 46) =~= seq![a2, b, g, d]);
            } else if i < d2i {
                let b2 = b.update(i - al - 1, w);
                assert(forall|j: int| 0 <= j < b2.len() ==> b2[j] != 46);
                assert(p2 =~= a + seq![46u8] + (b2 + seq![46u8] + g));
                lemma_split_join(a, b2 + seq![46u8] + g, 46);
                lemma_split_join(b2, g, 46);
                lemma_split_single(g, 46);
                assert(split_on(p2, 46) == seq![a] + (seq![b2] + seq![g]));
                assert(split_on(t2, 46) =~= seq![a, b2, g, d]);
            } else {
                let g2 = g.update(i - d2i - 1, w);
                assert(forall|j: int| 0 <= j < g2.len() ==> g2[j] != 46);
                assert(p2 =~= a + seq![46u8] + (b + seq![46u8] + g2));
                lemma_split_join(a, b + seq![46u8] + g2, 46);
                lemma_split_join(b, g2, 46);
                lemma_split_single(g2, 46);
                assert(split_on(p2, 46) == seq![a] + (seq![b] + seq![g2]));
                assert(split_on(t2, 46) =~= seq![a, b, g2, d]);
            }
            let parts = split_on(t2, 46);
            assert(parts.len() == 4);
            assert(parts[0] + seq![46u8] + parts[1] + seq![46u8] + parts[2] =~= p2);
            assert(parts[3] == d);
            if d == hex_of(hmac_sha256(key, p2)) {
                crate::crypto::lemma_hex_injective(hmac_sha256(key, p), hmac_sha256(key, p2));
                assert(false);
            }
        }
    } else if i == p.len() {
        assert(t[i] == 46 && w != 46);
        let x = g + seq![w] + d;
        assert(t2 =~= a + seq![46u8] + (b + seq![46u8] + x));
        assert(forall|j: int| 0 <= j < x.len() ==> x[j] != 46);
        lemma_split_join(a, b + seq![46u8] + x, 46);
        lemma_split_join(b, x, 46);
        lemma_split_single(x, 46);
        assert(split_on(t2, 46).len() == 3);
    } else {
        let dd = d.update(i - p.len() - 1, w);
        assert(t2 =~= p + seq![46u8] + dd);
        lemma_split_concat(p, dd, 46);
        assert(p =~= a + seq![46u8] + (b + seq![46u8] + g));
        lemma_split_join(a, b + seq![46u8] + g, 46);
        lemma_split_join(b, g, 46);
        lemma_split_single(g, 46);
        assert(split_on(p, 46) == seq![a] + (seq![b] + seq![g]));
        if w == 46 {
            crate::bytestr::lemma_split_sep_inside(dd, 46, i - p.len() - 1);
            assert(split_on(t2, 46).len() >= 5);
        } else {
            assert(forall|j: int| 0 <= j < dd.len() ==> dd[j] != 46);
            lemma_split_single(dd, 46);
            assert(split_on(t2, 46) =~= seq![a, b, g, dd]);
            let parts = split_on(t2, 46);
            assert(parts[0] + seq![46u8] + parts[1] + seq![46u8] + parts[2] =~= p);
            assert(dd[i - p.len() - 1] == w && d[i - p.len() - 1] == t[i]);
            assert(parts[3] != hex_of(hmac_sha256(key, p)));
        }
    }
}

/// Build a signed token for `subject` with `role`, expiring
/// `ttl_minutes` after `now` (both in seconds since the epoch).
/// Deterministic given identical inputs and timestamp; no side effects.
pub fn create_token(subject: &str, role: &str, secret: &str, ttl_minutes: u64, now: u64) -> (r:
    String)
    requires
        now + ttl_minutes * 60 <= u64::MAX,
    ensures
        r@ == token_chars_of(subject@, role@, (now + ttl_minutes * 60) as nat, secret@),
        encode_utf8(r@) == token_bytes_of(
            encode_utf8(subject@),
            encode_utf8(role@),
            (now + ttl_minutes * 60) as nat,
            encode_utf8(secret@),
        ),
{
    let exp: u64 = now + ttl_minutes * 60;
    let ghost sub_b = encode_utf8(subject@);
    let ghost role_b = encode_utf8(role@);
    let ghost key = encode_utf8(secret@);
    let mut t: Vec<u8> = b64_encode_bytes(subject.as_bytes());
    t.push(46);
    let role_enc = b64_encode_bytes(role.as_bytes());
    append_bytes(&mut t, role_enc.as_slice());
    t.push(46);
    let exp_dec = u64_to_dec(exp);
    append_bytes(&mut t, exp_dec.as_slice());
    proof {
        assert(t@ =~= signing_input_of(sub_b, role_b, exp as nat));
    }
    let tag = hmac_sha256_tag(secret.as_bytes(), t.as_slice());
    let sig = hex_encode(tag.as_slice());
    t.push(46);
    append_bytes(&mut t, sig.as_slice());
    proof {
        assert(t@ =~= token_bytes_of(sub_b, role_b, exp as nat, key));
        lemma_token_split(sub_b, role_b, exp as nat, key);
        lemma_ascii_utf8(t@);
        vstd::utf8::decode_utf8_encode_utf8(t@);
    }
    let out = bytes_to_string(t);
    match out {
        Some(s) => s,
        None => {
            proof {
                assert(false);
            }
            String::new()
        },
    }
}

/// Recompute and check the signature in constant time, then check the
/// expiry. The result follows `spec_validate` on the token's bytes.
pub fn validate_token(token: &str, secret: &str, now: u64) -> (r: Result<Claims, AuthError>)
    ensures
        ({
            let s = spec_validate(encode_utf8(token@), encode_utf8(secret@), now);
            match r {
                Ok(c) => s matches Ok(m) && c.sub@ == m.0 && c.role@ == m.1 && c.exp == m.2,
                Err(e) => s matches Err(e2) && e == e2,
            }
        }),
{
    let ghost tb = encode_utf8(token@);
    let ghost key = encode_utf8(secret@);
    let token_bytes = token.as_bytes();
    let parts = split_on_bytes(token_bytes, 46);
    let ghost sparts = split_on(tb, 46);
    proof {
        assert(parts@.map_values(|p: Vec<u8>| p@).len() == sparts.len());
    }
    if parts.len() != 4 {
        return Err(AuthError::InvalidSignature);
    }
    proof {
        assert(parts@[0]@ == sparts[0] && parts@[1]@ == sparts[1] && parts@[2]@ == sparts[2]
            && parts@[3]@ == sparts[3]);
    }
    let mut payload: Vec<u8> = Vec::new();
    append_bytes(&mut payload, parts[0].as_slice());
    payload.push(46);
    append_bytes(&mut payload, parts[1].as_slice());
    payload.push(46);
    append_bytes(&mut payload, parts[2].as_slice());
    proof {
        assert(payload@ =~= sparts[0] + seq![46u8] + sparts[1] + seq![46u8] + sparts[2]);
    }
    let tag = hmac_sha256_tag(secret.as_bytes(), payload.as_slice());
    let expected = hex_encode(tag.as_slice());
    if !ct_eq_bytes(expected.as_slice(), parts[3].as_slice()) {
        return Err(AuthError::InvalidSignature);
    }
    let sub_bytes = match b64_decode_bytes(parts[0].as_slice()) {
        Some(v) => v,
        None => {
            return Err(AuthError::InvalidSignature);
        },
    };
    let role_bytes = match b64_decode_bytes(parts[1].as_slice()) {
        Some(v) => v,
        None => {
            return Err(AuthError::InvalidSignature);
        },
    };
    let exp = match parse_dec(parts[2].as_slice()) {
        Some(v) => v,
        None => {
            return Err(AuthError::InvalidSignature);
        },
    };
    let sub = match bytes_to_string(sub_bytes) {
        Some(s) => s,
        None => {
            return Err(AuthError::InvalidSignature);
        },
    };
    let role = match bytes_to_string(role_bytes) {
        Some(s) => s,
        None => {
            return Err(AuthError::InvalidSignature);
        },
    };
    if exp > now {
        Ok(Claims { sub, role, exp })
    } else {
        Err(AuthError::Expired)
    }
}

} // verus!
