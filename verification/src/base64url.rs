//! Unpadded base64url coding of byte strings, used to frame the token
//! payload. Encoding is canonical: the unused low bits of a final
//! partial group must be zero, and decoding rejects anything else.
use vstd::prelude::*;

verus! {

/// The base64url alphabet character for a 6-bit value.
pub open spec fn b64_char_of(v: u8) -> u8 {
    if v < 26 {
        (65 + v) as u8
    } else if v < 52 {
        (97 + (v - 26)) as u8
    } else if v < 62 {
        (48 + (v - 52)) as u8
    } else if v == 62 {
        45u8
    } else {
        95u8
    }
}

/// The 6-bit value of an alphabet character; 255 marks a character
/// outside the alphabet.
pub open spec fn b64_val_of(c: u8) -> u8 {
    if 65 <= c <= 90 {
        (c - 65) as u8
    } else if 97 <= c <= 122 {
        (26 + (c - 97)) as u8
    } else if 48 <= c <= 57 {
        (52 + (c - 48)) as u8
    } else if c == 45 {
        62u8
    } else if c == 95 {
        63u8
    } else {
        255u8
    }
}

pub open spec fn is_b64_char(c: u8) -> bool {
    b64_val_of(c) != 255
}

pub proof fn lemma_b64_char(v: u8)
    requires
        v < 64,
    ensures
        is_b64_char(b64_char_of(v)),
        b64_val_of(b64_char_of(v)) == v,
        b64_char_of(v) != 46,
        b64_char_of(v) < 128,
{
}

/// The base64url encoding of a byte string, without padding.
pub open spec fn b64_encode(b: Seq<u8>) -> Seq<u8>
    decreases b.len(),
{
    if b.len() >= 3 {
        seq![
            b64_char_of(b[0] >> 2),
            b64_char_of(((b[0] & 3) << 4) | (b[1] >> 4)),
            b64_char_of(((b[1] & 15) << 2) | (b[2] >> 6)),
            b64_char_of(b[2] & 63),
        ] + b64_encode(b.subrange(3, b.len() as int))
    } else if b.len() == 2 {
        seq![
            b64_char_of(b[0] >> 2),
            b64_char_of(((b[0] & 3) << 4) | (b[1] >> 4)),
            b64_char_of((b[1] & 15) << 2),
        ]
    } else if b.len() == 1 {
        seq![b64_char_of(b[0] >> 2), b64_char_of((b[0] & 3) << 4)]
    } else {
        Seq::empty()
    }
}

/// The bytes denoted by a base64url string, or `None` when the string
/// is not a canonical unpadded encoding.
pub open spec fn b64_decode(s: Seq<u8>) -> Option<Seq<u8>>
    decreases s.len(),
{
    if s.len() == 0 {
        Some(Seq::empty())
    } else if s.len() == 2 {
        if is_b64_char(s[0]) && is_b64_char(s[1]) && (b64_val_of(s[1]) & 15) == 0 {
            Some(seq![(b64_val_of(s[0]) << 2) | (b64_val_of(s[1]) >> 4)])
        } else {
            None
        }
    } else if s.len() == 3 {
        if is_b64_char(s[0]) && is_b64_char(s[1]) && is_b64_char(s[2]) && (b64_val_of(s[2]) & 3)
            == 0 {
            Some(
                seq![
                    (b64_val_of(s[0]) << 2) | (b64_val_of(s[1]) >> 4),
                    ((b64_val_of(s[1]) & 15) << 4) | (b64_val_of(s[2]) >> 2),
                ],
            )
        } else {
            None
        }
    } else if s.len() >= 4 {
        if is_b64_char(s[0]) && is_b64_char(s[1]) && is_b64_char(s[2]) && is_b64_char(s[3]) {
            match b64_decode(s.subrange(4, s.len() as int)) {
                Some(rest) => Some(
                    seq![
                        (b64_val_of(s[0]) << 2) | (b64_val_of(s[1]) >> 4),
                        ((b64_val_of(s[1]) & 15) << 4) | (b64_val_of(s[2]) >> 2),
                        ((b64_val_of(s[2]) & 3) << 6) | b64_val_of(s[3]),
                    ] + rest,
                ),
                None => None,
            }
        } else {
            None
        }
    } else {
        None
    }
}

/// Every character of an encoding lies in the alphabet; in particular
/// none is a dot, and all are ASCII.
pub proof fn lemma_encode_alphabet(b: Seq<u8>)
    ensures
        forall|i: int|
            0 <= i < b64_encode(b).len() ==> is_b64_char(#[trigger] b64_encode(b)[i])
                && b64_encode(b)[i] != 46 && b64_encode(b)[i] < 128,
    decreases b.len(),
{
    if b.len() >= 3 {
        lemma_encode_alphabet(b.subrange(3, b.len() as int));
        let x = b[0];
        let y = b[1];
        let z = b[2];
        assert(x >> 2 < 64 && (((x & 3) << 4) | (y >> 4)) < 64 && (((y & 15) << 2) | (z >> 6)) < 64
            && (z & 63) < 64) by (bit_vector);
        lemma_b64_char(x >> 2);
        lemma_b64_char(((x & 3) << 4) | (y >> 4));
        lemma_b64_char(((y & 15) << 2) | (z >> 6));
        lemma_b64_char(z & 63);
        let e = b64_encode(b);
        let rest = b64_encode(b.subrange(3, b.len() as int));
        assert forall|i: int| 0 <= i < e.len() implies is_b64_char(#[trigger] e[i]) && e[i] != 46
            && e[i] < 128 by {
            if i >= 4 {
                assert(e[i] == rest[i - 4]);
            }
        }
    } else if b.len() == 2 {
        let x = b[0];
        let y = b[1];
        assert(x >> 2 < 64 && (((x & 3) << 4) | (y >> 4)) < 64 && ((y & 15) << 2) < 64)
            by (bit_vector);
        lemma_b64_char(x >> 2);
        lemma_b64_char(((x & 3) << 4) | (y >> 4));
        lemma_b64_char((y & 15) << 2);
    } else if b.len() == 1 {
        let x = b[0];
        assert(x >> 2 < 64 && ((x & 3) << 4) < 64) by (bit_vector);
        lemma_b64_char(x >> 2);
        lemma_b64_char((x & 3) << 4);
    }
}

/// Encoding distributes over concatenation at a whole-group boundary.
pub proof fn lemma_encode_append(a: Seq<u8>, b: Seq<u8>)
    requires
        a.len() % 3 == 0,
    ensures
        b64_encode(a + b) == b64_encode(a) + b64_encode(b),
    decreases a.len(),
{
    if a.len() == 0 {
        assert(a + b =~= b);
        assert(b64_encode(a) =~= Seq::empty());
        assert(b64_encode(a + b) =~= b64_encode(a) + b64_encode(b));
    } else {
        let ab = a + b;
        assert(ab.len() >= 3);
        assert(ab[0] == a[0] && ab[1] == a[1] && ab[2] == a[2]);
        assert(ab.subrange(3, ab.len() as int) =~= a.subrange(3, a.len() as int) + b);
        lemma_encode_append(a.subrange(3, a.len() as int), b);
        assert(b64_encode(a) =~= seq![
            b64_char_of(a[0] >> 2),
            b64_char_of(((a[0] & 3) << 4) | (a[1] >> 4)),
            b64_char_of(((a[1] & 15) << 2) | (a[2] >> 6)),
            b64_char_of(a[2] & 63),
        ] + b64_encode(a.subrange(3, a.len() as int)));
        assert(b64_encode(a + b) =~= b64_encode(a) + b64_encode(b));
    }
}

/// Decoding inverts encoding.
pub proof fn lemma_b64_round_trip(b: Seq<u8>)
    ensures
        b64_decode(b64_encode(b)) == Some(b),
    decreases b.len(),
{
    if b.len() == 0 {
        assert(b64_encode(b) =~= Seq::<u8>::empty());
        assert(b64_decode(b64_encode(b)) == Some(b));
    } else if b.len() == 1 {
        let x = b[0];
        let v0 = x >> 2;
        let v1 = (x & 3) << 4;
        assert(v0 < 64 && v1 < 64 && (v1 & 15) == 0 && ((v0 << 2) | (v1 >> 4)) == x)
            by (bit_vector)
            requires
                v0 == x >> 2 && v1 == (x & 3) << 4,
        ;
        lemma_b64_char(v0);
        lemma_b64_char(v1);
        let s = b64_encode(b);
        assert(s =~= seq![b64_char_of(v0), b64_char_of(v1)]);
        assert(b64_decode(s) == Some(seq![(v0 << 2) | (v1 >> 4)]));
        assert(seq![(v0 << 2) | (v1 >> 4)] =~= b);
    } else if b.len() == 2 {
        let x = b[0];
        let y = b[1];
        let v0 = x >> 2;
        let v1 = ((x & 3) << 4) | (y >> 4);
        let v2 = (y & 15) << 2;
        assert(v0 < 64 && v1 < 64 && v2 < 64 && (v2 & 3) == 0 && ((v0 << 2) | (v1 >> 4)) == x && ((
        (v1 & 15) << 4) | (v2 >> 2)) == y) by (bit_vector)
            requires
                v0 == x >> 2 && v1 == ((x & 3) << 4) | (y >> 4) && v2 == (y & 15) << 2,
        ;
        lemma_b64_char(v0);
        lemma_b64_char(v1);
        lemma_b64_char(v2);
        let s = b64_encode(b);
        assert(s =~= seq![b64_char_of(v0), b64_char_of(v1), b64_char_of(v2)]);
        assert(b64_decode(s) == Some(seq![x, y]));
        assert(seq![x, y] =~= b);
    } else {
        let x = b[0];
        let y = b[1];
        let z = b[2];
        let v0 = x >> 2;
        let v1 = ((x & 3) << 4) | (y >> 4);
        let v2 = ((y & 15) << 2) | (z >> 6);
        let v3 = z & 63;
        assert(v0 < 64 && v1 < 64 && v2 < 64 && v3 < 64 && ((v0 << 2) | (v1 >> 4)) == x && (((v1
            & 15) << 4) | (v2 >> 2)) == y && (((v2 & 3) << 6) | v3) == z) by (bit_vector)
            requires
                v0 == x >> 2 && v1 == ((x & 3) << 4) | (y >> 4) && v2 == ((y & 15) << 2) | (z
                    >> 6) && v3 == z & 63,
        ;
        lemma_b64_char(v0);
        lemma_b64_char(v1);
        lemma_b64_char(v2);
        lemma_b64_char(v3);
        let rest = b.subrange(3, b.len() as int);
        lemma_b64_round_trip(rest);
        let s = b64_encode(b);
        let group: Seq<u8> = seq![
            b64_char_of(v0),
            b64_char_of(v1),
            b64_char_of(v2),
            b64_char_of(v3),
        ];
        assert(s =~= group + b64_encode(rest));
        assert(s.len() >= 4);
        assert(s[0] == group[0] && s[1] == group[1] && s[2] == group[2] && s[3] == group[3]);
        assert(s.subrange(4, s.len() as int) =~= b64_encode(rest));
        assert(b64_decode(s) == Some(seq![x, y, z] + rest));
        assert(seq![x, y, z] + rest =~= b);
    }
}

/// The alphabet character for a 6-bit value.
pub fn b64_char(v: u8) -> (c: u8)
    requires
        v < 64,
    ensures
        c == b64_char_of(v),
{
    if v < 26 {
        65 + v
    } else if v < 52 {
        97 + (v - 26)
    } else if v < 62 {
        48 + (v - 52)
    } else if v == 62 {
        45
    } else {
        95
    }
}

/// The 6-bit value of a character, 255 when outside the alphabet.
pub fn b64_val(c: u8) -> (v: u8)
    ensures
        v == b64_val_of(c),
        v < 64 || v == 255,
{
    if 65 <= c && c <= 90 {
        c - 65
    } else if 97 <= c && c <= 122 {
        26 + (c - 97)
    } else if 48 <= c && c <= 57 {
        52 + (c - 48)
    } else if c == 45 {
        62
    } else if c == 95 {
        63
    } else {
        255
    }
}

/// Encode a byte slice as unpadded base64url.
pub fn b64_encode_bytes(b: &[u8]) -> (r: Vec<u8>)
    ensures
        r@ == b64_encode(b@),
{
    let mut out: Vec<u8> = Vec::new();
    let mut i: usize = 0;
    while b.len() - i >= 3
        invariant
            0 <= i <= b@.len(),
            i % 3 == 0,
            out@ == b64_encode(b@.subrange(0, i as int)),
        decreases b@.len() - i,
    {
        let x = b[i];
        let y = b[i + 1];
        let z = b[i + 2];
        proof {
            assert(x >> 2 < 64 && (((x & 3) << 4) | (y >> 4)) < 64 && (((y & 15) << 2) | (z >> 6))
                < 64 && (z & 63) < 64) by (bit_vector);
            let pre = b@.subrange(0, i as int);
            let grp = b@.subrange(i as int, i + 3);
            lemma_encode_append(pre, grp);
            assert(pre + grp =~= b@.subrange(0, i + 3));
            assert(grp[0] == x && grp[1] == y && grp[2] == z);
            assert(grp.subrange(3, 3) =~= Seq::<u8>::empty());
            assert(b64_encode(grp.subrange(3, 3)) =~= Seq::<u8>::empty());
            assert(b64_encode(grp) =~= seq![
                b64_char_of(grp[0] >> 2),
                b64_char_of(((grp[0] & 3) << 4) | (grp[1] >> 4)),
                b64_char_of(((grp[1] & 15) << 2) | (grp[2] >> 6)),
                b64_char_of(grp[2] & 63),
            ]);
        }
        out.push(b64_char(x >> 2));
        out.push(b64_char(((x & 3) << 4) | (y >> 4)));
        out.push(b64_char(((y & 15) << 2) | (z >> 6)));
        out.push(b64_char(z & 63));
        proof {
            assert(out@ =~= b64_encode(b@.subrange(0, i + 3)));
        }
        i = i + 3;
    }
    proof {
        let pre = b@.subrange(0, i as int);
        let tail = b@.subrange(i as int, b@.len() as int);
        lemma_encode_append(pre, tail);
        assert(pre + tail =~= b@);
    }
    if b.len() - i == 2 {
        let x = b[i];
        let y = b[i + 1];
        proof {
            assert(x >> 2 < 64 && (((x & 3) << 4) | (y >> 4)) < 64 && ((y & 15) << 2) < 64)
                by (bit_vector);
            let tail = b@.subrange(i as int, b@.len() as int);
            assert(tail.len() == 2 && tail[0] == x && tail[1] == y);
        }
        out.push(b64_char(x >> 2));
        out.push(b64_char(((x & 3) << 4) | (y >> 4)));
        out.push(b64_char((y & 15) << 2));
        proof {
            assert(out@ =~= b64_encode(b@));
        }
    } else if b.len() - i == 1 {
        let x = b[i];
        proof {
            assert(x >> 2 < 64 && ((x & 3) << 4) < 64) by (bit_vector);
            let tail = b@.subrange(i as int, b@.len() as int);
            assert(tail.len() == 1 && tail[0] == x);
        }
        out.push(b64_char(x >> 2));
        out.push(b64_char((x & 3) << 4));
        proof {
            assert(out@ =~= b64_encode(b@));
        }
    } else {
        proof {
            assert(b@.subrange(i as int, b@.len() as int).len() == 0);
            assert(out@ =~= b64_encode(b@));
        }
    }
    out
}

/// Decode an unpadded base64url slice; `None` when it is not a
/// canonical encoding.
pub fn b64_decode_bytes(s: &[u8]) -> (r: Option<Vec<u8>>)
    ensures
        r is Some <==> b64_decode(s@) is Some,
        r matches Some(v) ==> Some(v@) == b64_decode(s@),
{
    let mut out: Vec<u8> = Vec::new();
    let mut i: usize = 0;
    proof {
        assert(s@.subrange(0, s@.len() as int) =~= s@);
        if b64_decode(s@) is Some {
            assert(out@ + b64_decode(s@)->Some_0 =~= b64_decode(s@)->Some_0);
        }
    }
    while s.len() - i >= 4
        invariant
            0 <= i <= s@.len(),
            (b64_decode(s@) is Some <==> b64_decode(s@.subrange(i as int, s@.len() as int))
                is Some),
            b64_decode(s@) is Some ==> b64_decode(s@) == Some(
                out@ + b64_decode(s@.subrange(i as int, s@.len() as int))->Some_0,
            ),
        decreases s@.len() - i,
    {
        let ghost tail = s@.subrange(i as int, s@.len() as int);
        let v0 = b64_val(s[i]);
        let v1 = b64_val(s[i + 1]);
        let v2 = b64_val(s[i + 2]);
        let v3 = b64_val(s[i + 3]);
        proof {
            assert(tail.len() >= 4);
            assert(tail[0] == s@[i as int] && tail[1] == s@[i + 1] && tail[2] == s@[i + 2]
                && tail[3] == s@[i + 3]);
        }
        if v0 == 255 || v1 == 255 || v2 == 255 || v3 == 255 {
            proof {
                assert(b64_decode(tail) is None);
            }
            return None;
        }
        proof {
            assert(tail.subrange(4, tail.len() as int) =~= s@.subrange(i + 4, s@.len() as int));
        }
        out.push((v0 << 2) | (v1 >> 4));
        out.push(((v1 & 15) << 4) | (v2 >> 2));
        out.push(((v2 & 3) << 6) | v3);
        i = i + 4;
        proof {
            if b64_decode(s@.subrange(i as int, s@.len() as int)) is Some {
                assert(out@ + b64_decode(s@.subrange(i as int, s@.len() as int))->Some_0 =~= out@
                    .subrange(0, out@.len() - 3) + b64_decode(tail)->Some_0);
            }
        }
    }
    let ghost tail = s@.subrange(i as int, s@.len() as int);
    let rem = s.len() - i;
    if rem == 0 {
        proof {
            assert(b64_decode(tail) == Some(Seq::<u8>::empty()));
            assert(out@ + Seq::<u8>::empty() =~= out@);
        }
        Some(out)
    } else if rem == 2 {
        let v0 = b64_val(s[i]);
        let v1 = b64_val(s[i + 1]);
        proof {
            assert(tail.len() == 2 && tail[0] == s@[i as int] && tail[1] == s@[i + 1]);
        }
        if v0 != 255 && v1 != 255 && (v1 & 15) == 0 {
            out.push((v0 << 2) | (v1 >> 4));
            proof {
                assert(b64_decode(tail) == Some(seq![(v0 << 2) | (v1 >> 4)]));
                assert(out@ =~= out@.subrange(0, out@.len() - 1) + seq![(v0 << 2) | (v1 >> 4)]);
            }
            Some(out)
        } else {
            proof {
                assert(b64_decode(tail) is None);
            }
            None
        }
    } else if rem == 3 {
        let v0 = b64_val(s[i]);
        let v1 = b64_val(s[i + 1]);
        let v2 = b64_val(s[i + 2]);
        proof {
            assert(tail.len() == 3 && tail[0] == s@[i as int] && tail[1] == s@[i + 1] && tail[2]
                == s@[i + 2]);
        }
        if v0 != 255 && v1 != 255 && v2 != 255 && (v2 & 3) == 0 {
            out.push((v0 << 2) | (v1 >> 4));
            out.push(((v1 & 15) << 4) | (v2 >> 2));
            proof {
                assert(b64_decode(tail) == Some(seq![
                    (v0 << 2) | (v1 >> 4),
                    ((v1 & 15) << 4) | (v2 >> 2),
                ]));
                assert(out@ =~= out@.subrange(0, out@.len() - 2) + seq![
                    (v0 << 2) | (v1 >> 4),
                    ((v1 & 15) << 4) | (v2 >> 2),
                ]);
            }
            Some(out)
        } else {
            proof {
                assert(b64_decode(tail) is None);
            }
            None
        }
    } else {
        proof {
            assert(tail.len() == 1);
            assert(b64_decode(tail) is None);
        }
        None
    }
}

} // verus!
