//! Trusted bindings to the message-authentication primitives: the
//! HMAC-SHA-256 tag (named, not restated) and lowercase hex encoding
//! (specified exactly).
use vstd::prelude::*;
use hmac::Mac;

verus! {

/// The HMAC-SHA-256 tag of `msg` under `key`: a function of the two
/// arguments alone. Nothing further is assumed of its value.
pub uninterp spec fn hmac_sha256(key: Seq<u8>, msg: Seq<u8>) -> Seq<u8>;

/// Relies on `hmac::Hmac<sha2::Sha256>` (`new_from_slice`, `update`,
/// `finalize`): the tag is 32 bytes and depends on key and message
/// alone. HMAC accepts keys of any length, so `new_from_slice` cannot
/// fail.
#[verifier::external_body]
pub fn hmac_sha256_tag(key: &[u8], msg: &[u8]) -> (r: Vec<u8>)
    ensures
        r@ == hmac_sha256(key@, msg@),
        r@.len() == 32,
{
    let mut mac = <hmac::Hmac<sha2::Sha256> as Mac>::new_from_slice(key)
        .expect("HMAC accepts keys of any length");
    mac.update(msg);
    mac.finalize().into_bytes().to_vec()
}

/// The lowercase hex digit for a 4-bit value.
pub open spec fn hex_digit_of(v: u8) -> u8 {
    if v < 10 {
        (48 + v) as u8
    } else {
        (87 + v) as u8
    }
}

pub open spec fn is_hex_digit(c: u8) -> bool {
    (48 <= c <= 57) || (97 <= c <= 102)
}

/// The lowercase hex encoding of a byte string, two digits per byte,
/// most significant digit first.
pub open spec fn hex_of(b: Seq<u8>) -> Seq<u8>
    decreases b.len(),
{
    if b.len() == 0 {
        Seq::empty()
    } else {
        seq![hex_digit_of(b[0] >> 4), hex_digit_of(b[0] & 15)] + hex_of(b.drop_first())
    }
}

/// Relies on `hex::encode`: lowercase hex, two digits per byte, most
/// significant digit first.
#[verifier::external_body]
pub fn hex_encode(b: &[u8]) -> (r: Vec<u8>)
    ensures
        r@ == hex_of(b@),
{
    hex::encode(b).into_bytes()
}

/// Every character of a hex encoding is a hex digit; in particular
/// none is a dot, and all are ASCII.
pub proof fn lemma_hex_alphabet(b: Seq<u8>)
    ensures
        hex_of(b).len() == 2 * b.len(),
        forall|i: int|
            0 <= i < hex_of(b).len() ==> is_hex_digit(#[trigger] hex_of(b)[i]) && hex_of(b)[i]
                != 46 && hex_of(b)[i] < 128,
    decreases b.len(),
{
    if b.len() > 0 {
        lemma_hex_alphabet(b.drop_first());
        let x = b[0];
        assert(x >> 4 < 16 && (x & 15) < 16) by (bit_vector);
        let e = hex_of(b);
        let rest = hex_of(b.drop_first());
        assert forall|i: int|
            0 <= i < e.len() implies is_hex_digit(#[trigger] e[i]) && e[i] != 46 && e[i]
            < 128 by {
            if i >= 2 {
                assert(e[i] == rest[i - 2]);
            }
        }
    }
}

/// Hex encoding is injective.
pub proof fn lemma_hex_injective(a: Seq<u8>, b: Seq<u8>)
    requires
        hex_of(a) == hex_of(b),
    ensures
        a == b,
    decreases a.len(),
{
    lemma_hex_alphabet(a);
    lemma_hex_alphabet(b);
    if a.len() == 0 {
        assert(a =~= b);
    } else {
        let x = a[0];
        let y = b[0];
        assert(hex_of(a)[0] == hex_digit_of(x >> 4) && hex_of(a)[1] == hex_digit_of(x & 15));
        assert(hex_of(b)[0] == hex_digit_of(y >> 4) && hex_of(b)[1] == hex_digit_of(y & 15));
        assert(x >> 4 < 16 && (x & 15) < 16 && y >> 4 < 16 && (y & 15) < 16) by (bit_vector);
        assert(x >> 4 == y >> 4 && (x & 15) == (y & 15));
        assert(x == y) by (bit_vector)
            requires
                x >> 4 == y >> 4 && (x & 15) == (y & 15),
        ;
        assert(hex_of(a).subrange(2, hex_of(a).len() as int) =~= hex_of(a.drop_first()));
        assert(hex_of(b).subrange(2, hex_of(b).len() as int) =~= hex_of(b.drop_first()));
        lemma_hex_injective(a.drop_first(), b.drop_first());
        assert forall|i: int| 0 <= i < a.len() implies a[i] == b[i] by {
            if i > 0 {
                assert(a[i] == a.drop_first()[i - 1]);
                assert(b[i] == b.drop_first()[i - 1]);
            }
        }
        assert(a =~= b);
    }
}

} // verus!
