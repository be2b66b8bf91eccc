//! Byte-sequence helpers shared by the token codec and the signature
//! verifier: slice copying, equality, constant-time comparison, and the
//! bridge between byte sequences and `String`s.
use vstd::prelude::*;
use vstd::utf8::{valid_utf8, decode_utf8, encode_utf8};

verus! {

/// All bytes of the sequence are ASCII.
pub open spec fn ascii_seq(b: Seq<u8>) -> bool {
    forall|i: int| 0 <= i < b.len() ==> b[i] < 128
}

/// An ASCII byte sequence is valid UTF-8 and decodes byte-for-byte.
pub proof fn lemma_ascii_utf8(b: Seq<u8>)
    requires
        ascii_seq(b),
    ensures
        valid_utf8(b),
        decode_utf8(b) =~= b.map_values(|x: u8| x as char),
    decreases b.len(),
{
    if b.len() > 0 {
        let b0 = b[0];
        assert(b0 < 128);
        assert(b0 & 0x80 == 0) by (bit_vector)
            requires
                b0 < 128,
        ;
        assert(vstd::utf8::is_leading_byte_width_1(b0));
        assert(vstd::utf8::pop_first_scalar(b) =~= b.drop_first());
        assert(ascii_seq(b.drop_first()));
        lemma_ascii_utf8(b.drop_first());
        assert(b0 & 0x7f == b0) by (bit_vector)
            requires
                b0 < 128,
        ;
        assert(vstd::utf8::decode_first_scalar(b) == b0 as u32);
        let c = b0 as char;
        vstd::utf8::char_u32_cast(c, b0 as u32);
        assert(decode_utf8(b) == seq![c] + decode_utf8(b.drop_first()));
        assert(decode_utf8(b) =~= b.map_values(|x: u8| x as char));
    }
}

/// ASCII-ness distributes over concatenation.
pub proof fn lemma_ascii_concat(a: Seq<u8>, b: Seq<u8>)
    ensures
        ascii_seq(a + b) <==> (ascii_seq(a) && ascii_seq(b)),
{
    if ascii_seq(a) && ascii_seq(b) {
        assert forall|i: int| 0 <= i < (a + b).len() implies (a + b)[i] < 128 by {
            if i < a.len() {
                assert((a + b)[i] == a[i]);
            } else {
                assert((a + b)[i] == b[i - a.len()]);
            }
        }
    }
    if ascii_seq(a + b) {
        assert forall|i: int| 0 <= i < a.len() implies a[i] < 128 by {
            assert(a[i] == (a + b)[i]);
        }
        assert forall|i: int| 0 <= i < b.len() implies b[i] < 128 by {
            assert(b[i] == (a + b)[i + a.len()]);
        }
    }
}

/// Copy `s[from..to]` into a fresh vector.
pub fn bytes_range(s: &[u8], from: usize, to: usize) -> (r: Vec<u8>)
    requires
        from <= to <= s@.len(),
    ensures
        r@ == s@.subrange(from as int, to as int),
{
    let mut out: Vec<u8> = Vec::new();
    let mut i: usize = from;
    while i < to
        invariant
            from <= i <= to <= s@.len(),
            out@ == s@.subrange(from as int, i as int),
        decreases to - i,
    {
        out.push(s[i]);
        i = i + 1;
        proof {
            assert(out@ =~= s@.subrange(from as int, i as int));
        }
    }
    out
}

/// Append a byte slice to a vector.
pub fn append_bytes(dst: &mut Vec<u8>, src: &[u8])
    ensures
        final(dst)@ == old(dst)@ + src@,
{
    let mut i: usize = 0;
    while i < src.len()
        invariant
            0 <= i <= src@.len(),
            dst@ == old(dst)@ + src@.subrange(0, i as int),
        decreases src@.len() - i,
    {
        dst.push(src[i]);
        i = i + 1;
        proof {
            assert(dst@ =~= old(dst)@ + src@.subrange(0, i as int));
        }
    }
    proof {
        assert(dst@ =~= old(dst)@ + src@);
    }
}

/// Plain byte-slice equality.
pub fn bytes_eq(a: &[u8], b: &[u8]) -> (r: bool)
    ensures
        r == (a@ == b@),
{
    if a.len() != b.len() {
        proof {
            assert(a@.len() != b@.len());
        }
        return false;
    }
    let mut i: usize = 0;
    while i < a.len()
        invariant
            a@.len() == b@.len(),
            0 <= i <= a@.len(),
            forall|j: int| 0 <= j < i ==> a@[j] == b@[j],
        decreases a@.len() - i,
    {
        if a[i] != b[i] {
            return false;
        }
        i = i + 1;
    }
    proof {
        assert(a@ =~= b@);
    }
    true
}

/// Constant-time byte comparison: accumulate the XOR of every byte pair
/// so that no early exit leaks where the first difference lies.
pub fn ct_eq_bytes(a: &[u8], b: &[u8]) -> (r: bool)
    ensures
        r == (a@ == b@),
{
    if a.len() != b.len() {
        proof {
            assert(a@.len() != b@.len());
        }
        return false;
    }
    let mut acc: u8 = 0;
    let mut i: usize = 0;
    while i < a.len()
        invariant
            a@.len() == b@.len(),
            0 <= i <= a@.len(),
            (acc == 0) <==> (forall|j: int| 0 <= j < i ==> a@[j] == b@[j]),
        decreases a@.len() - i,
    {
        let x = a[i];
        let y = b[i];
        let d = x ^ y;
        proof {
            assert(((x ^ y) == 0) == (x == y)) by (bit_vector);
            assert(forall|p: u8, q: u8| ((p | q) == 0) == (p == 0 && q == 0)) by (bit_vector);
        }
        acc = acc | d;
        i = i + 1;
    }
    proof {
        if acc == 0 {
            assert(a@ =~= b@);
        }
    }
    acc == 0
}

/// Relies on `String::from_utf8`: returns the string decoded from the
/// given bytes exactly when they are valid UTF-8.
#[verifier::external_body]
pub fn bytes_to_string(v: Vec<u8>) -> (r: Option<String>)
    ensures
        r is Some <==> valid_utf8(v@),
        r matches Some(s) ==> s@ == decode_utf8(v@),
{
    String::from_utf8(v).ok()
}

/// Equality of two string slices, decided on their UTF-8 bytes.
pub fn str_eq(a: &str, b: &str) -> (r: bool)
    ensures
        r == (a@ == b@),
{
    let r = bytes_eq(a.as_bytes(), b.as_bytes());
    proof {
        if r {
            vstd::utf8::encode_utf8_decode_utf8(a@);
            vstd::utf8::encode_utf8_decode_utf8(b@);
        }
    }
    r
}

/// Index of the first occurrence of `sep` in `t`, or -1.
pub open spec fn find_byte(t: Seq<u8>, sep: u8) -> int
    decreases t.len(),
{
    if t.len() == 0 {
        -1
    } else if t[0] == sep {
        0
    } else {
        let r = find_byte(t.drop_first(), sep);
        if r < 0 {
            -1
        } else {
            r + 1
        }
    }
}

pub proof fn lemma_find_byte(t: Seq<u8>, sep: u8)
    ensures
        find_byte(t, sep) >= 0 ==> 0 <= find_byte(t, sep) < t.len() && t[find_byte(t, sep)] == sep
            && (forall|j: int| 0 <= j < find_byte(t, sep) ==> t[j] != sep),
        find_byte(t, sep) < 0 ==> (forall|j: int| 0 <= j < t.len() ==> t[j] != sep),
    decreases t.len(),
{
    if t.len() > 0 && t[0] != sep {
        lemma_find_byte(t.drop_first(), sep);
        let r = find_byte(t.drop_first(), sep);
        if r >= 0 {
            assert forall|j: int| 0 <= j < r + 1 implies t[j] != sep by {
                if j > 0 {
                    assert(t[j] == t.drop_first()[j - 1]);
                }
            }
        } else {
            assert forall|j: int| 0 <= j < t.len() implies t[j] != sep by {
                if j > 0 {
                    assert(t[j] == t.drop_first()[j - 1]);
                }
            }
        }
    }
}

/// The first occurrence characterizes `find_byte`.
pub proof fn lemma_find_byte_unique(t: Seq<u8>, sep: u8, i: int)
    requires
        0 <= i < t.len(),
        t[i] == sep,
        forall|j: int| 0 <= j < i ==> t[j] != sep,
    ensures
        find_byte(t, sep) == i,
{
    lemma_find_byte(t, sep);
    let f = find_byte(t, sep);
    if f < 0 {
        assert(t[i] != sep);
        assert(false);
    }
    if f < i {
        assert(t[f] != sep);
        assert(false);
    }
    if f > i {
        assert(t[i] != sep);
        assert(false);
    }
}

/// `t` split on every occurrence of `sep`; separators are consumed,
/// empty fields are kept.
pub open spec fn split_on(t: Seq<u8>, sep: u8) -> Seq<Seq<u8>>
    decreases t.len(),
{
    let i = find_byte(t, sep);
    if i < 0 || i >= t.len() {
        seq![t]
    } else {
        seq![t.subrange(0, i)] + split_on(t.subrange(i + 1, t.len() as int), sep)
    }
}

pub proof fn lemma_split_single(a: Seq<u8>, sep: u8)
    requires
        forall|j: int| 0 <= j < a.len() ==> a[j] != sep,
    ensures
        split_on(a, sep) == seq![a],
{
    lemma_find_byte(a, sep);
    if find_byte(a, sep) >= 0 {
        assert(a[find_byte(a, sep)] == sep);
        assert(false);
    }
}

/// Splitting a string that starts with a separator-free field followed
/// by a separator peels off that field.
pub proof fn lemma_split_join(a: Seq<u8>, rest: Seq<u8>, sep: u8)
    requires
        forall|j: int| 0 <= j < a.len() ==> a[j] != sep,
    ensures
        split_on(a + seq![sep] + rest, sep) == seq![a] + split_on(rest, sep),
{
    let t = a + seq![sep] + rest;
    lemma_find_byte(t, sep);
    assert(t[a.len() as int] == sep);
    let i = find_byte(t, sep);
    assert(i >= 0);
    if i < a.len() {
        assert(t[i] == a[i]);
        assert(false);
    }
    if i > a.len() {
        assert(t[a.len() as int] != sep);
        assert(false);
    }
    assert(i == a.len());
    assert(t.subrange(0, i) =~= a);
    assert(t.subrange(i + 1, t.len() as int) =~= rest);
}

/// A split has at least one field.
pub proof fn lemma_split_len(t: Seq<u8>, sep: u8)
    ensures
        split_on(t, sep).len() >= 1,
{
}

/// Splitting distributes over concatenation at a separator.
pub proof fn lemma_split_concat(x: Seq<u8>, y: Seq<u8>, sep: u8)
    ensures
        split_on(x + seq![sep] + y, sep) == split_on(x, sep) + split_on(y, sep),
    decreases x.len(),
{
    lemma_find_byte(x, sep);
    let t = x + seq![sep] + y;
    if find_byte(x, sep) < 0 {
        lemma_split_join(x, y, sep);
        lemma_split_single(x, sep);
        assert(split_on(t, sep) =~= split_on(x, sep) + split_on(y, sep));
    } else {
        let ix = find_byte(x, sep);
        assert(t[ix] == x[ix]);
        assert forall|j: int| 0 <= j < ix implies t[j] != sep by {
            assert(t[j] == x[j]);
        }
        lemma_find_byte_unique(t, sep, ix);
        assert(split_on(t, sep) == seq![t.subrange(0, ix)] + split_on(
            t.subrange(ix + 1, t.len() as int),
            sep,
        ));
        assert(t.subrange(0, ix) =~= x.subrange(0, ix));
        assert(t.subrange(ix + 1, t.len() as int) =~= x.subrange(ix + 1, x.len() as int)
            + seq![sep] + y);
        lemma_split_concat(x.subrange(ix + 1, x.len() as int), y, sep);
        assert(split_on(x, sep) == seq![x.subrange(0, ix)] + split_on(
            x.subrange(ix + 1, x.len() as int),
            sep,
        ));
        assert(split_on(t, sep) =~= split_on(x, sep) + split_on(y, sep));
    }
}

/// A string that holds the separator splits into at least two fields.
pub proof fn lemma_split_sep_inside(s: Seq<u8>, sep: u8, k: int)
    requires
        0 <= k < s.len(),
        s[k] == sep,
    ensures
        split_on(s, sep).len() >= 2,
{
    let x = s.subrange(0, k);
    let y = s.subrange(k + 1, s.len() as int);
    assert(s =~= x + seq![sep] + y);
    lemma_split_concat(x, y, sep);
    lemma_split_len(x, sep);
    lemma_split_len(y, sep);
}

/// Split a byte slice on a separator.
pub fn split_on_bytes(s: &[u8], sep: u8) -> (parts: Vec<Vec<u8>>)
    ensures
        parts@.map_values(|p: Vec<u8>| p@) == split_on(s@, sep),
{
    let mut parts: Vec<Vec<u8>> = Vec::new();
    let mut start: usize = 0;
    let mut i: usize = 0;
    proof {
        assert(s@.subrange(0, s@.len() as int) =~= s@);
        assert(parts@.map_values(|p: Vec<u8>| p@) + split_on(s@, sep) =~= split_on(s@, sep));
    }
    while i < s.len()
        invariant
            0 <= start <= i <= s@.len(),
            forall|j: int| start <= j < i ==> s@[j] != sep,
            split_on(s@, sep) == parts@.map_values(|p: Vec<u8>| p@) + split_on(
                s@.subrange(start as int, s@.len() as int),
                sep,
            ),
        decreases s@.len() - i,
    {
        if s[i] == sep {
            let field = bytes_range(s, start, i);
            proof {
                let a = s@.subrange(start as int, i as int);
                let rest = s@.subrange(i + 1, s@.len() as int);
                assert(s@.subrange(start as int, s@.len() as int) =~= a + seq![sep] + rest);
                lemma_split_join(a, rest, sep);
                assert((parts@.push(field)).map_values(|p: Vec<u8>| p@) =~= parts@.map_values(
                    |p: Vec<u8>| p@,
                ).push(field@));
                assert(parts@.map_values(|p: Vec<u8>| p@).push(a) + split_on(rest, sep) =~= parts@
                    .map_values(|p: Vec<u8>| p@) + (seq![a] + split_on(rest, sep)));
            }
            parts.push(field);
            start = i + 1;
        }
        i = i + 1;
    }
    let field = bytes_range(s, start, s.len());
    proof {
        let a = s@.subrange(start as int, s@.len() as int);
        lemma_split_single(a, sep);
        assert((parts@.push(field)).map_values(|p: Vec<u8>| p@) =~= parts@.map_values(
            |p: Vec<u8>| p@,
        ).push(field@));
        assert(parts@.map_values(|p: Vec<u8>| p@).push(a) =~= parts@.map_values(|p: Vec<u8>| p@)
            + seq![a]);
    }
    parts.push(field);
    parts
}

} // verus!
