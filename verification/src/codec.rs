//! Decimal text encoding of the counter value.
//!
//! The store persists the counter as the canonical decimal digits of a
//! non-negative integer: no sign, no leading zero (except for the single
//! digit `0` itself). `encode_u64` produces that encoding and `parse_u64`
//! accepts exactly it.

use vstd::prelude::*;

verus! {

/// The canonical decimal digits of `n`, most significant first.
pub open spec fn dec_digits(n: nat) -> Seq<u8>
    decreases n,
{
    if n < 10 {
        seq![(48 + n) as u8]
    } else {
        dec_digits(n / 10).push((48 + n % 10) as u8)
    }
}

pub open spec fn is_dec_digit(b: u8) -> bool {
    48 <= b <= 57
}

/// The number denoted by a sequence of decimal digit bytes.
pub open spec fn digits_value(s: Seq<u8>) -> nat
    decreases s.len(),
{
    if s.len() == 0 {
        0
    } else {
        digits_value(s.drop_last()) * 10 + (s.last() - 48) as nat
    }
}

/// A canonical encoding: non-empty, all digits, no superfluous leading zero.
pub open spec fn is_canonical_dec(s: Seq<u8>) -> bool {
    &&& s.len() > 0
    &&& (forall|i: int| 0 <= i < s.len() ==> is_dec_digit(s[i]))
    &&& (s.len() > 1 ==> s[0] != 48)
}

/// The canonical digits of any value are indeed canonical.
pub proof fn lemma_dec_digits_canonical(n: nat)
    ensures
        is_canonical_dec(dec_digits(n)),
        n >= 1 ==> dec_digits(n)[0] != 48,
    decreases n,
{
    if n < 10 {
    } else {
        lemma_dec_digits_canonical(n / 10);
    }
}

/// Decoding inverts encoding: the digits of `n` denote `n`.
pub proof fn lemma_dec_digits_value(n: nat)
    ensures
        digits_value(dec_digits(n)) == n,
    decreases n,
{
    if n < 10 {
        assert(dec_digits(n).drop_last() =~= Seq::<u8>::empty());
        assert(digits_value(Seq::<u8>::empty()) == 0);
    } else {
        lemma_dec_digits_value(n / 10);
        let s = dec_digits(n);
        assert(s.drop_last() =~= dec_digits(n / 10));
        assert(n / 10 * 10 + n % 10 == n) by (nonlinear_arith);
    }
}

/// A digit string with a non-zero leading digit denotes a positive number.
proof fn lemma_leading_nonzero_positive(s: Seq<u8>)
    requires
        s.len() >= 1,
        forall|i: int| 0 <= i < s.len() ==> is_dec_digit(s[i]),
        s[0] != 48,
    ensures
        digits_value(s) >= 1,
    decreases s.len(),
{
    if s.len() > 1 {
        lemma_leading_nonzero_positive(s.drop_last());
    }
}

/// Encoding is the only canonical spelling: a canonical digit string is
/// exactly the digits of the value it denotes.
pub proof fn lemma_canonical_unique(s: Seq<u8>)
    requires
        is_canonical_dec(s),
    ensures
        s == dec_digits(digits_value(s)),
    decreases s.len(),
{
    if s.len() == 1 {
        assert(s.drop_last() =~= Seq::<u8>::empty());
        assert(digits_value(Seq::<u8>::empty()) == 0);
        assert(digits_value(s) == (s[0] - 48) as nat);
        assert(s =~= dec_digits(digits_value(s)));
    } else {
        let p = s.drop_last();
        let m = digits_value(p);
        let d = (s.last() - 48) as nat;
        lemma_leading_nonzero_positive(p);
        lemma_canonical_unique(p);
        let n = digits_value(s);
        assert(n == m * 10 + d);
        assert(m * 10 + d >= 10) by (nonlinear_arith)
            requires m >= 1 && d >= 0;
        vstd::arithmetic::div_mod::lemma_fundamental_div_mod_converse(
            n as int, 10, m as int, d as int);
        assert(s =~= dec_digits(n));
    }
}

/// A digit string denotes at least as much as any of its prefixes.
pub proof fn lemma_prefix_value_le(s: Seq<u8>, k: int)
    requires
        0 <= k <= s.len(),
        forall|i: int| 0 <= i < s.len() ==> is_dec_digit(s[i]),
    ensures
        digits_value(s.take(k)) <= digits_value(s),
    decreases s.len(),
{
    if k == s.len() {
        assert(s.take(k) =~= s);
    } else {
        let p = s.drop_last();
        assert(s.take(k) =~= p.take(k));
        lemma_prefix_value_le(p, k);
        assert(digits_value(p) * 10 >= digits_value(p)) by (nonlinear_arith);
    }
}

/// Encode `n` as its canonical decimal digits.
pub fn encode_u64(n: u64) -> (r: Vec<u8>)
    ensures
        r@ == dec_digits(n as nat),
    decreases n,
{
    if n < 10 {
        let mut v: Vec<u8> = Vec::new();
        v.push(48 + n as u8);
        proof {
            assert(v@ =~= dec_digits(n as nat));
        }
        v
    } else {
        let mut v = encode_u64(n / 10);
        v.push(48 + (n % 10) as u8);
        proof {
            assert(v@ =~= dec_digits(n as nat));
        }
        v
    }
}

/// Parse the canonical decimal digits of a value that fits in `u64`;
/// any other byte string is rejected.
pub fn parse_u64(s: &[u8]) -> (r: Option<u64>)
    ensures
        r matches Some(n) ==> s@ == dec_digits(n as nat),
        forall|n: u64| s@ == dec_digits(n as nat) ==> r == Some(n),
{
    proof {
        assert forall|n: u64| s@ == dec_digits(n as nat) implies is_canonical_dec(s@) by {
            lemma_dec_digits_canonical(n as nat);
        }
        assert forall|n: u64| s@ == dec_digits(n as nat) implies digits_value(s@) == n as nat by {
            lemma_dec_digits_value(n as nat);
        }
    }
    if s.len() == 0 {
        return None;
    }
    if s.len() > 1 && s[0] == 48 {
        return None;
    }
    let mut acc: u64 = 0;
    let mut i: usize = 0;
    while i < s.len()
        invariant
            0 <= i <= s.len(),
            forall|j: int| 0 <= j < i ==> is_dec_digit(s@[j]),
            acc as nat == digits_value(s@.take(i as int)),
            s.len() > 0,
            s.len() > 1 ==> s@[0] != 48,
            forall|n: u64| s@ == dec_digits(n as nat) ==> is_canonical_dec(s@),
            forall|n: u64| s@ == dec_digits(n as nat) ==> digits_value(s@) == n as nat,
        decreases s.len() - i,
    {
        let b = s[i];
        if b < 48 || b > 57 {
            return None;
        }
        let d = (b - 48) as u64;
        let acc10 = match acc.checked_mul(10) {
            Some(x) => x,
            None => {
                proof {
                    assert forall|n: u64| s@ != dec_digits(n as nat) by {
                        if s@ == dec_digits(n as nat) {
                            assert(digits_value(s@.take(i + 1))
                                == digits_value(s@.take(i as int)) * 10 + d) by {
                                assert(s@.take(i + 1).drop_last() =~= s@.take(i as int));
                            }
                            lemma_prefix_value_le(s@, i + 1);
                        }
                    }
                }
                return None;
            },
        };
        let acc2 = match acc10.checked_add(d) {
            Some(x) => x,
            None => {
                proof {
                    assert forall|n: u64| s@ != dec_digits(n as nat) by {
                        if s@ == dec_digits(n as nat) {
                            assert(digits_value(s@.take(i + 1))
                                == digits_value(s@.take(i as int)) * 10 + d) by {
                                assert(s@.take(i + 1).drop_last() =~= s@.take(i as int));
                            }
                            lemma_prefix_value_le(s@, i + 1);
                        }
                    }
                }
                return None;
            },
        };
        proof {
            assert(s@.take(i + 1).drop_last() =~= s@.take(i as int));
        }
        acc = acc2;
        i += 1;
    }
    proof {
        assert(s@.take(i as int) =~= s@);
        lemma_canonical_unique(s@);
    }
    Some(acc)
}

/// The persisted layout round-trips: parsing what `encode_u64` wrote
/// yields the value back, and no other byte string parses to it.
pub proof fn lemma_round_trip(n: nat)
    ensures
        digits_value(dec_digits(n)) == n,
        is_canonical_dec(dec_digits(n)),
        forall|s: Seq<u8>| is_canonical_dec(s) && digits_value(s) == n
            ==> s == dec_digits(n),
{
    lemma_dec_digits_value(n);
    lemma_dec_digits_canonical(n);
    assert forall|s: Seq<u8>| is_canonical_dec(s) && digits_value(s) == n
        implies s == dec_digits(n) by {
        lemma_canonical_unique(s);
    }
}

} // verus!
