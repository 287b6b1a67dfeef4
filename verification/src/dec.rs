use vstd::prelude::*;

verus! {

/// Decimal text: the canonical base-10 rendering of unsigned numbers, and
/// its strict inverse. Token payloads carry timestamps and user identifiers
/// in this form.

pub open spec fn is_dec_digit(b: u8) -> bool {
    48 <= b <= 57
}

pub open spec fn all_dec_digits(s: Seq<u8>) -> bool {
    forall|i: int| 0 <= i < s.len() ==> is_dec_digit(#[trigger] s[i])
}

/// The canonical decimal rendering of `n`: no sign, no leading zeros.
pub open spec fn spec_dec_digits(n: nat) -> Seq<u8>
    decreases n,
{
    if n < 10 {
        seq![(48 + n) as u8]
    } else {
        spec_dec_digits(n / 10) + seq![(48 + n % 10) as u8]
    }
}

/// The numeric value of a digit string (most significant digit first).
pub open spec fn dec_value(s: Seq<u8>) -> int
    decreases s.len(),
{
    if s.len() == 0 {
        0
    } else {
        dec_value(s.drop_last()) * 10 + (s.last() - 48)
    }
}

/// A digit string is canonical when it is nonempty, all digits, and free of
/// leading zeros.
pub open spec fn is_canonical_dec(s: Seq<u8>) -> bool {
    &&& s.len() > 0
    &&& all_dec_digits(s)
    &&& (s.len() > 1 ==> s[0] != 48)
}

/// The canonical rendering is canonical and evaluates back to `n`.
pub proof fn lemma_dec_digits_value(n: nat)
    ensures
        is_canonical_dec(spec_dec_digits(n)),
        dec_value(spec_dec_digits(n)) == n,
        n >= 1 ==> spec_dec_digits(n)[0] != 48,
    decreases n,
{
    if n < 10 {
        let s = spec_dec_digits(n);
        assert(s.drop_last() =~= Seq::<u8>::empty());
        assert(dec_value(s.drop_last()) == 0);
        assert(dec_value(s) == 0 * 10 + (s.last() - 48));
        assert(s.last() == (48 + n) as u8);
    } else {
        lemma_dec_digits_value(n / 10);
        let hi = spec_dec_digits(n / 10);
        let s = spec_dec_digits(n);
        assert(s.drop_last() =~= hi);
        assert(s.last() == (48 + n % 10) as u8);
        assert(n % 10 < 10);
        assert(dec_value(s) == dec_value(hi) * 10 + (n % 10));
        assert(n / 10 * 10 + n % 10 == n) by {
            vstd::arithmetic::div_mod::lemma_fundamental_div_mod(n as int, 10);
        }
        assert(n / 10 >= 1);
        assert(hi[0] != 48);
        assert(s[0] == hi[0]);
    }
}

/// The value of a prefix never exceeds the value of the whole digit string.
pub proof fn lemma_dec_prefix_le(s: Seq<u8>, i: int)
    requires
        all_dec_digits(s),
        0 <= i <= s.len(),
    ensures
        dec_value(s.take(i)) <= dec_value(s),
    decreases s.len() - i,
{
    if i < s.len() {
        lemma_dec_prefix_le(s, i + 1);
        let t = s.take(i + 1);
        assert(t.drop_last() =~= s.take(i));
        assert(dec_value(t) == dec_value(s.take(i)) * 10 + (t.last() - 48));
        assert(dec_value(s.take(i)) >= 0) by {
            lemma_dec_value_nonneg(s.take(i));
        }
        assert(dec_value(s.take(i)) * 10 >= dec_value(s.take(i))) by {
            vstd::arithmetic::mul::lemma_mul_inequality(1, 10, dec_value(s.take(i)));
        }
    } else {
        assert(s.take(i) =~= s);
    }
}

pub proof fn lemma_dec_value_nonneg(s: Seq<u8>)
    requires
        all_dec_digits(s),
    ensures
        dec_value(s) >= 0,
    decreases s.len(),
{
    if s.len() > 0 {
        assert(all_dec_digits(s.drop_last()));
        lemma_dec_value_nonneg(s.drop_last());
        vstd::arithmetic::mul::lemma_mul_inequality(0, dec_value(s.drop_last()), 10);
    }
}

/// Append the canonical decimal rendering of `n` to `out`.
pub fn push_dec_u128(n: u128, out: &mut Vec<u8>)
    ensures
        final(out)@ == old(out)@ + spec_dec_digits(n as nat),
    decreases n,
{
    if n < 10 {
        out.push(48 + n as u8);
        proof {
            assert(final(out)@ =~= old(out)@ + spec_dec_digits(n as nat));
        }
    } else {
        push_dec_u128(n / 10, out);
        out.push(48 + (n % 10) as u8);
        proof {
            assert(final(out)@ =~= old(out)@ + spec_dec_digits(n as nat));
        }
    }
}

/// Parse a canonical decimal digit string into a number. Returns `Some`
/// exactly for the canonical renderings of numbers that fit in a `u128`.
pub fn parse_dec_u128(s: &[u8]) -> (r: Option<u128>)
    ensures
        match r {
            Some(n) => is_canonical_dec(s@) && dec_value(s@) == n,
            None => !(is_canonical_dec(s@) && dec_value(s@) <= u128::MAX),
        },
{
    if s.len() == 0 {
        return None;
    }
    if s.len() > 1 && s[0] == 48 {
        return None;
    }
    let mut acc: u128 = 0;
    let mut i: usize = 0;
    proof {
        assert(s@.take(0) =~= Seq::<u8>::empty());
    }
    while i < s.len()
        invariant
            0 <= i <= s@.len(),
            s@.len() > 0,
            s@.len() > 1 ==> s@[0] != 48,
            all_dec_digits(s@.take(i as int)),
            acc == dec_value(s@.take(i as int)),
        decreases s@.len() - i,
    {
        let b = s[i];
        if b < 48 || b > 57 {
            return None;
        }
        let d: u128 = (b - 48) as u128;
        let scaled = match acc.checked_mul(10) {
            Some(v) => v,
            None => {
                proof {
                    overflow_reject(s@, i as int, acc as int * 10 + (b - 48));
                }
                return None;
            },
        };
        let next = match scaled.checked_add(d) {
            Some(v) => v,
            None => {
                proof {
                    overflow_reject(s@, i as int, acc as int * 10 + (b - 48));
                }
                return None;
            },
        };
        proof {
            assert(s@.take(i + 1).drop_last() =~= s@.take(i as int));
        }
        acc = next;
        i = i + 1;
    }
    proof {
        assert(s@.take(i as int) =~= s@);
    }
    Some(acc)
}

/// When the running value at a prefix already exceeds `u128::MAX`, the whole
/// string cannot denote a number in range.
proof fn overflow_reject(s: Seq<u8>, i: int, prefix_value: int)
    requires
        0 <= i < s.len(),
        all_dec_digits(s.take(i)),
        is_dec_digit(s[i]),
        prefix_value == dec_value(s.take(i)) * 10 + (s[i] - 48),
        prefix_value > u128::MAX,
    ensures
        !(all_dec_digits(s) && dec_value(s) <= u128::MAX),
{
    if all_dec_digits(s) {
        assert(s.take(i + 1).drop_last() =~= s.take(i));
        assert(dec_value(s.take(i + 1)) == prefix_value);
        lemma_dec_prefix_le(s, i + 1);
    }
}

} // verus!
