//! Authenticity check of inbound payment-provider callbacks. The
//! signature header is a comma-separated list of `key=value` fields; it
//! must supply a timestamp `t` and a signature `v1`, and `v1` must equal
//! the lowercase hex HMAC-SHA-256 of `"{t}.{body}"` under the shared
//! webhook secret. The comparison is constant time over the compared
//! length. The timestamp's age is deliberately not checked here; bounding
//! the replay window is an open policy question recorded with the design.
use vstd::prelude::*;
use vstd::utf8::encode_utf8;
use crate::bytestr::{find_byte, split_on, split_on_bytes, bytes_range, append_bytes, ct_eq_bytes,
    lemma_find_byte, lemma_find_byte_unique};
use crate::crypto::{hmac_sha256, hmac_sha256_tag, hex_of, hex_encode};

verus! {

/// The key of a `key=value` field: everything before the first `=`,
/// or the whole field when it has none.
pub open spec fn part_key(p: Seq<u8>) -> Seq<u8> {
    let i = find_byte(p, 61);
    if i < 0 {
        p
    } else {
        p.subrange(0, i)
    }
}

/// The value of a `key=value` field: everything after the first `=`
/// (later `=` signs belong to the value), empty when it has none.
pub open spec fn part_val(p: Seq<u8>) -> Seq<u8> {
    let i = find_byte(p, 61);
    if i < 0 {
        Seq::empty()
    } else {
        p.subrange(i + 1, p.len() as int)
    }
}

/// The value of the last field with the given key, if any: a repeated
/// key is overridden by later occurrences.
pub open spec fn last_field(parts: Seq<Seq<u8>>, key: Seq<u8>) -> Option<Seq<u8>>
    decreases parts.len(),
{
    if parts.len() == 0 {
        None
    } else if part_key(parts.last()) == key {
        Some(part_val(parts.last()))
    } else {
        last_field(parts.drop_last(), key)
    }
}

pub open spec fn ts_key() -> Seq<u8> {
    seq![116u8]
}

pub open spec fn v1_key() -> Seq<u8> {
    seq![118u8, 49u8]
}

/// The timestamp and signature fields carried by a header.
pub open spec fn header_fields(h: Seq<u8>) -> (Option<Seq<u8>>, Option<Seq<u8>>) {
    (last_field(split_on(h, 44), ts_key()), last_field(split_on(h, 44), v1_key()))
}

/// Whether a header authenticates a body under a secret: both fields
/// present, and `v1` equal to the hex HMAC of `"{t}.{body}"`.
pub open spec fn sig_header_verifies(h: Seq<u8>, body: Seq<u8>, key: Seq<u8>) -> bool {
    match header_fields(h) {
        (Some(ts), Some(sig)) => sig == hex_of(hmac_sha256(key, ts + seq![46u8] + body)),
        _ => false,
    }
}

/// Constant-time string equality: the accumulate-XOR comparison of
/// `ct_eq_bytes` over the UTF-8 bytes, with no early exit on a
/// differing byte.
pub fn subtle_equals(a: &str, b: &str) -> (r: bool)
    ensures
        r == (a@ == b@),
{
    let r = ct_eq_bytes(a.as_bytes(), b.as_bytes());
    proof {
        if r {
            vstd::utf8::encode_utf8_decode_utf8(a@);
            vstd::utf8::encode_utf8_decode_utf8(b@);
        }
    }
    r
}

/// Check a signature header against a raw body and the webhook secret.
/// Returns a boolean, not an error: absence of a match is an
/// authentication failure at the call site.
pub fn verify_signature(header: &str, payload: &[u8], secret: &str) -> (r: bool)
    ensures
        r == sig_header_verifies(encode_utf8(header@), payload@, encode_utf8(secret@)),
{
    let hb = header.as_bytes();
    let ghost sparts = split_on(encode_utf8(header@), 44);
    let parts = split_on_bytes(hb, 44);
    let mut ts: Option<Vec<u8>> = None;
    let mut v1: Option<Vec<u8>> = None;
    let mut i: usize = 0;
    proof {
        assert(sparts.subrange(0, 0) =~= Seq::<Seq<u8>>::empty());
    }
    while i < parts.len()
        invariant
            0 <= i <= parts@.len(),
            parts@.map_values(|p: Vec<u8>| p@) == sparts,
            (match ts {
                None => last_field(sparts.subrange(0, i as int), ts_key()) is None,
                Some(v) => last_field(sparts.subrange(0, i as int), ts_key()) == Some(v@),
            }),
            (match v1 {
                None => last_field(sparts.subrange(0, i as int), v1_key()) is None,
                Some(v) => last_field(sparts.subrange(0, i as int), v1_key()) == Some(v@),
            }),
        decreases parts@.len() - i,
    {
        let part = &parts[i];
        proof {
            assert(part@ == sparts[i as int]);
        }
        let mut j: usize = 0;
        while j < part.len() && part[j] != 61
            invariant
                0 <= j <= part@.len(),
                forall|jj: int| 0 <= jj < j ==> part@[jj] != 61,
            decreases part@.len() - j,
        {
            j = j + 1;
        }
        let k: Vec<u8> = bytes_range(part.as_slice(), 0, j);
        let v: Vec<u8> = if j < part.len() {
            proof {
                lemma_find_byte_unique(part@, 61, j as int);
            }
            bytes_range(part.as_slice(), j + 1, part.len())
        } else {
            proof {
                lemma_find_byte(part@, 61);
                if find_byte(part@, 61) >= 0 {
                    assert(false);
                }
            }
            Vec::new()
        };
        proof {
            assert(k@ == part_key(part@));
            assert(v@ == part_val(part@));
            assert(sparts.subrange(0, i + 1).last() == sparts[i as int]);
            assert(sparts.subrange(0, i + 1).drop_last() =~= sparts.subrange(0, i as int));
        }
        if k.len() == 1 && k[0] == 116 {
            proof {
                assert(k@ =~= ts_key());
            }
            ts = Some(v);
        } else if k.len() == 2 && k[0] == 118 && k[1] == 49 {
            proof {
                assert(k@ =~= v1_key());
                if k@ == ts_key() {
                    assert(false);
                }
            }
            v1 = Some(v);
        } else {
            proof {
                if k@ == ts_key() {
                    assert(k@.len() == 1 && k@[0] == 116);
                    assert(false);
                }
                if k@ == v1_key() {
                    assert(k@.len() == 2 && k@[0] == 118 && k@[1] == 49);
                    assert(false);
                }
            }
        }
        i = i + 1;
    }
    proof {
        assert(sparts.subrange(0, sparts.len() as int) =~= sparts);
    }
    match (ts, v1) {
        (Some(tsv), Some(sigv)) => {
            let mut msg: Vec<u8> = Vec::new();
            append_bytes(&mut msg, tsv.as_slice());
            msg.push(46);
            append_bytes(&mut msg, payload);
            proof {
                assert(msg@ =~= tsv@ + seq![46u8] + payload@);
            }
            let tag = hmac_sha256_tag(secret.as_bytes(), msg.as_slice());
            let expected = hex_encode(tag.as_slice());
            ct_eq_bytes(sigv.as_slice(), expected.as_slice())
        },
        _ => false,
    }
}

/// The only field with a given key determines `last_field`.
pub proof fn lemma_last_field_unique(parts: Seq<Seq<u8>>, key: Seq<u8>, w: int)
    requires
        0 <= w < parts.len(),
        part_key(parts[w]) == key,
        forall|j: int| 0 <= j < parts.len() && part_key(#[trigger] parts[j]) == key ==> j == w,
    ensures
        last_field(parts, key) == Some(part_val(parts[w])),
    decreases parts.len(),
{
    if w == parts.len() - 1 {
        assert(parts.last() == parts[w]);
    } else {
        assert(part_key(parts.last()) != key);
        assert(parts.drop_last()[w] == parts[w]);
        lemma_last_field_unique(parts.drop_last(), key, w);
    }
}

/// A field list with exactly one field of the given key.
pub open spec fn unique_key_at(parts: Seq<Seq<u8>>, key: Seq<u8>, i: int) -> bool {
    &&& 0 <= i < parts.len()
    &&& part_key(parts[i]) == key
    &&& forall|j: int| 0 <= j < parts.len() && part_key(#[trigger] parts[j]) == key ==> j == i
}

pub open spec fn has_key_once(parts: Seq<Seq<u8>>, key: Seq<u8>) -> bool {
    exists|i: int| unique_key_at(parts, key, i)
}

/// Reordering the header fields does not change the verification
/// outcome, provided the timestamp and signature keys each occur once.
pub proof fn lemma_header_reorder(h1: Seq<u8>, h2: Seq<u8>, body: Seq<u8>, key: Seq<u8>)
    requires
        split_on(h1, 44).to_multiset() == split_on(h2, 44).to_multiset(),
        has_key_once(split_on(h1, 44), ts_key()),
        has_key_once(split_on(h1, 44), v1_key()),
        has_key_once(split_on(h2, 44), ts_key()),
        has_key_once(split_on(h2, 44), v1_key()),
    ensures
        sig_header_verifies(h1, body, key) == sig_header_verifies(h2, body, key),
{
    let p1 = split_on(h1, 44);
    let p2 = split_on(h2, 44);
    lemma_same_unique_field(p1, p2, ts_key());
    lemma_same_unique_field(p1, p2, v1_key());
}

/// With equal field multisets and a unique occurrence of the key on
/// both sides, the extracted field agrees.
proof fn lemma_same_unique_field(p1: Seq<Seq<u8>>, p2: Seq<Seq<u8>>, key: Seq<u8>)
    requires
        p1.to_multiset() == p2.to_multiset(),
        has_key_once(p1, key),
        has_key_once(p2, key),
    ensures
        last_field(p1, key) == last_field(p2, key),
{
    broadcast use vstd::seq_lib::group_to_multiset_ensures;

    let i1 = choose|i: int| unique_key_at(p1, key, i);
    let i2 = choose|i: int| unique_key_at(p2, key, i);
    lemma_last_field_unique(p1, key, i1);
    lemma_last_field_unique(p2, key, i2);
    assert(p2.contains(p2[i2]));
    assert(p2.to_multiset().count(p2[i2]) > 0);
    assert(p1.to_multiset().count(p2[i2]) > 0);
    assert(p1.contains(p2[i2]));
    let j = choose|j: int| 0 <= j < p1.len() && p1[j] == p2[i2];
    assert(part_key(p1[j]) == key);
    assert(j == i1);
    assert(p1[i1] == p2[i2]);
}

} // verus!
