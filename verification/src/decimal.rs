//! Decimal rendering and parsing of unsigned integers, used for the
//! expiry field of tokens and the amount field of checkout forms.
use vstd::prelude::*;

verus! {

/// The ASCII decimal digits of `n`, most significant first, with no
/// leading zeros.
pub open spec fn dec_digits_of(n: nat) -> Seq<u8>
    decreases n,
{
    if n < 10 {
        seq![(48 + n) as u8]
    } else {
        dec_digits_of(n / 10) + seq![(48 + n % 10) as u8]
    }
}

pub open spec fn all_dec_digits(s: Seq<u8>) -> bool {
    forall|i: int| 0 <= i < s.len() ==> 48 <= #[trigger] s[i] <= 57
}

/// The numeric value of a sequence of ASCII decimal digits.
pub open spec fn dec_val(s: Seq<u8>) -> nat
    decreases s.len(),
{
    if s.len() == 0 {
        0
    } else {
        dec_val(s.drop_last()) * 10 + ((s.last() - 48) as nat)
    }
}

pub proof fn lemma_dec_digits_shape(n: nat)
    ensures
        all_dec_digits(dec_digits_of(n)),
        dec_digits_of(n).len() >= 1,
        dec_val(dec_digits_of(n)) == n,
    decreases n,
{
    if n < 10 {
        assert(dec_digits_of(n) =~= seq![(48 + n) as u8]);
        assert(seq![(48 + n) as u8].drop_last() =~= Seq::<u8>::empty());
        assert((48 + n) as u8 == 48 + n);
        assert(dec_val(Seq::<u8>::empty()) == 0);
        assert(dec_val(seq![(48 + n) as u8]) == 0 * 10 + (((48 + n) as u8 - 48) as nat));
        assert(dec_val(dec_digits_of(n)) == n);
    } else {
        lemma_dec_digits_shape(n / 10);
        let s = dec_digits_of(n);
        assert(s =~= dec_digits_of(n / 10) + seq![(48 + n % 10) as u8]);
        assert(s.drop_last() =~= dec_digits_of(n / 10));
        assert(s.last() == (48 + n % 10) as u8);
        assert(dec_val(s) == (n / 10) * 10 + n % 10);
        assert((n / 10) * 10 + n % 10 == n) by (nonlinear_arith);
    }
}

/// Appending a digit multiplies the value by ten and adds the digit.
pub proof fn lemma_dec_val_push(s: Seq<u8>, d: u8)
    requires
        48 <= d <= 57,
    ensures
        dec_val(s.push(d)) == dec_val(s) * 10 + (d - 48),
{
    assert(s.push(d).drop_last() =~= s);
    assert(s.push(d).last() == d);
}

/// A prefix never exceeds the value of the whole digit string.
pub proof fn lemma_dec_val_prefix_le(s: Seq<u8>, i: int)
    requires
        0 <= i <= s.len(),
        all_dec_digits(s),
    ensures
        dec_val(s.subrange(0, i)) <= dec_val(s),
    decreases s.len() - i,
{
    if i < s.len() {
        let a = s.subrange(0, i);
        let b = s.subrange(0, i + 1);
        assert(b =~= a.push(s[i]));
        lemma_dec_val_push(a, s[i]);
        assert(dec_val(a) <= dec_val(b));
        lemma_dec_val_prefix_le(s, i + 1);
        assert(s.subrange(0, s.len() as int) =~= s);
    } else {
        assert(s.subrange(0, i) =~= s);
    }
}

/// Render `n` in decimal.
pub fn u64_to_dec(n: u64) -> (r: Vec<u8>)
    ensures
        r@ == dec_digits_of(n as nat),
{
    let mut rev: Vec<u8> = Vec::new();
    let mut cur: u64 = n;
    if cur == 0 {
        let mut out: Vec<u8> = Vec::new();
        out.push(48);
        proof {
            assert(out@ =~= dec_digits_of(0));
        }
        return out;
    }
    while cur > 0
        invariant
            cur > 0 ==> dec_digits_of(n as nat) =~= dec_digits_of(cur as nat)
                + rev@.reverse(),
            cur == 0 ==> dec_digits_of(n as nat) =~= rev@.reverse(),
            n > 0,
        decreases cur,
    {
        let d: u8 = (cur % 10) as u8 + 48;
        let next: u64 = cur / 10;
        proof {
            let c = cur as nat;
            if next > 0 {
                assert(c >= 10);
                assert(dec_digits_of(c) =~= dec_digits_of(c / 10) + seq![
                    (48 + c % 10) as u8,
                ]);
            } else {
                assert(c < 10);
            }
            assert((rev@.push(d)).reverse() =~= seq![d] + rev@.reverse());
        }
        rev.push(d);
        cur = next;
    }
    let mut out: Vec<u8> = Vec::new();
    let mut i: usize = 0;
    while i < rev.len()
        invariant
            0 <= i <= rev@.len(),
            out@ =~= rev@.reverse().subrange(0, i as int),
        decreases rev@.len() - i,
    {
        out.push(rev[rev.len() - 1 - i]);
        i = i + 1;
        proof {
            assert(out@ =~= rev@.reverse().subrange(0, i as int));
        }
    }
    proof {
        assert(out@ =~= rev@.reverse());
    }
    out
}

/// Parse a decimal digit string into a `u64`. Returns `None` when the
/// slice is empty, holds a non-digit, or encodes a value above
/// `u64::MAX`. Leading zeros are accepted.
pub fn parse_dec(s: &[u8]) -> (r: Option<u64>)
    ensures
        r is Some <==> s@.len() > 0 && all_dec_digits(s@) && dec_val(s@) <= u64::MAX,
        r matches Some(v) ==> v == dec_val(s@),
{
    if s.len() == 0 {
        return None;
    }
    let mut val: u64 = 0;
    let mut i: usize = 0;
    while i < s.len()
        invariant
            0 <= i <= s@.len(),
            all_dec_digits(s@.subrange(0, i as int)),
            val == dec_val(s@.subrange(0, i as int)),
        decreases s@.len() - i,
    {
        let c = s[i];
        if c < 48 || c > 57 {
            return None;
        }
        let d: u64 = (c - 48) as u64;
        proof {
            assert(s@.subrange(0, i + 1) =~= s@.subrange(0, i as int).push(c));
            lemma_dec_val_push(s@.subrange(0, i as int), c);
        }
        if val > (u64::MAX - d) / 10 {
            proof {
                assert(dec_val(s@.subrange(0, i + 1)) == val * 10 + d);
                assert(val * 10 + d > u64::MAX) by (nonlinear_arith)
                    requires
                        val > (u64::MAX - d) / 10,
                        d <= 9,
                ;
                if all_dec_digits(s@) {
                    lemma_dec_val_prefix_le(s@, i + 1);
                }
            }
            return None;
        }
        proof {
            assert(val * 10 + d <= u64::MAX) by (nonlinear_arith)
                requires
                    val <= (u64::MAX - d) / 10,
                    d <= 9,
            ;
        }
        val = val * 10 + d;
        i = i + 1;
    }
    proof {
        assert(s@.subrange(0, s@.len() as int) =~= s@);
    }
    Some(val)
}

} // verus!
