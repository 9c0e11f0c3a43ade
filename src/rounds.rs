//! The `rounds=<N>` clause of the SHA-based schemes.
use crate::error::CryptError;
use vstd::prelude::*;

verus! {

/// The fewest rounds that a setting yields; smaller requests are raised.
pub const ROUNDS_MIN: u64 = 1000;

/// The most rounds that a setting may ask for.
pub const ROUNDS_MAX: u64 = 9999999;

/// The rounds used when a setting names none.
pub const ROUNDS_DEFAULT: u64 = 5000;

/// The text `rounds=`.
pub open spec fn rounds_tag() -> Seq<u8> {
    seq![114u8, 111, 117, 110, 100, 115, 61]
}

/// An ASCII decimal digit.
pub open spec fn is_digit(c: u8) -> bool {
    48 <= c <= 57
}

/// Every byte of `s` is a decimal digit.
pub open spec fn all_digits(s: Seq<u8>) -> bool {
    forall|i: int| 0 <= i < s.len() ==> is_digit(#[trigger] s[i])
}

/// The number that the decimal digits `s` write.
pub open spec fn digits_value(s: Seq<u8>) -> nat
    decreases s.len(),
{
    if s.len() == 0 {
        0
    } else {
        digits_value(s.drop_last()) * 10 + (s.last() - 48) as nat
    }
}

/// The decimal digits of `n`, without leading zeros.
pub open spec fn decimal(n: nat) -> Seq<u8>
    decreases n,
{
    if n < 10 {
        seq![(48 + n) as u8]
    } else {
        decimal(n / 10) + seq![(48 + n % 10) as u8]
    }
}

/// The rounds that the clause text `t` (what follows `rounds=`) resolves to,
/// or why it is refused.
pub open spec fn rounds_of(t: Seq<u8>) -> Result<u64, CryptError> {
    if t.len() == 0 || !all_digits(t) {
        Err(CryptError::RoundsMalformed)
    } else if digits_value(t) > u64::MAX as nat {
        Err(CryptError::RoundsOverflow)
    } else if digits_value(t) > ROUNDS_MAX as nat {
        Err(CryptError::RoundsTooLarge)
    } else if digits_value(t) < ROUNDS_MIN as nat {
        Ok(ROUNDS_MIN)
    } else {
        Ok(digits_value(t) as u64)
    }
}

proof fn lemma_digits_prefix(s: Seq<u8>, k: int, n: int)
    requires
        0 <= k <= n <= s.len(),
    ensures
        digits_value(s.take(k)) <= digits_value(s.take(n)),
    decreases n - k,
{
    if k < n {
        assert(s.take(n).drop_last() =~= s.take(n - 1));
        lemma_digits_prefix(s, k, n - 1);
    }
}

/// Reads the clause text `s[start..end]` as `rounds_of` does.
pub fn parse_rounds(s: &[u8], start: usize, end: usize) -> (r: Result<u64, CryptError>)
    requires
        start <= end <= s@.len(),
    ensures
        r == rounds_of(s@.subrange(start as int, end as int)),
{
    let ghost t = s@.subrange(start as int, end as int);
    if start == end {
        return Err(CryptError::RoundsMalformed);
    }
    let mut j: usize = start;
    while j < end
        invariant
            start <= j <= end <= s@.len(),
            t == s@.subrange(start as int, end as int),
            forall|k: int| 0 <= k < j - start ==> is_digit(#[trigger] t[k]),
        decreases end - j,
    {
        if s[j] < 48 || s[j] > 57 {
            proof {
                assert(!is_digit(t[j - start]));
            }
            return Err(CryptError::RoundsMalformed);
        }
        j += 1;
    }
    let mut v: u64 = 0;
    let mut j: usize = start;
    while j < end
        invariant
            start <= j <= end <= s@.len(),
            t == s@.subrange(start as int, end as int),
            all_digits(t),
            v as nat == digits_value(t.take(j - start)),
        decreases end - j,
    {
        proof {
            assert(t[j - start] == s@[j as int]);
            assert(is_digit(t[j - start]));
        }
        let d = (s[j] - 48) as u64;
        proof {
            assert(t.take(j - start + 1).drop_last() =~= t.take(j - start));
        }
        if v > (u64::MAX - d) / 10 {
            proof {
                assert(digits_value(t.take(j - start + 1)) == v * 10 + d);
                lemma_digits_prefix(t, j - start + 1, t.len() as int);
                assert(t.take(t.len() as int) =~= t);
            }
            return Err(CryptError::RoundsOverflow);
        }
        v = v * 10 + d;
        j += 1;
    }
    proof {
        assert(t.take(t.len() as int) =~= t);
    }
    if v > ROUNDS_MAX {
        Err(CryptError::RoundsTooLarge)
    } else if v < ROUNDS_MIN {
        Ok(ROUNDS_MIN)
    } else {
        Ok(v)
    }
}

/// Appends the decimal digits of `n` to `out`.
pub fn push_decimal(out: &mut Vec<u8>, n: u64)
    ensures
        final(out)@ == old(out)@ + decimal(n as nat),
    decreases n,
{
    if n >= 10 {
        push_decimal(out, n / 10);
    }
    out.push(48 + (n % 10) as u8);
    proof {
        if n >= 10 {
            assert(final(out)@ =~= old(out)@ + decimal(n as nat));
        } else {
            assert(final(out)@ =~= old(out)@ + decimal(n as nat));
        }
    }
}

/// The decimal text of `n` is read back as `n`.
pub proof fn lemma_decimal(n: nat)
    ensures
        decimal(n).len() > 0,
        all_digits(decimal(n)),
        digits_value(decimal(n)) == n,
    decreases n,
{
    if n >= 10 {
        lemma_decimal(n / 10);
        let d = decimal(n);
        assert(d.drop_last() =~= decimal(n / 10));
        assert(d.last() as nat == 48 + n % 10);
        assert(digits_value(d) == digits_value(d.drop_last()) * 10 + (d.last() - 48) as nat);
        assert((n / 10) * 10 + n % 10 == n) by (nonlinear_arith);
        assert forall|i: int| 0 <= i < d.len() implies is_digit(#[trigger] d[i]) by {
            if i < d.len() - 1 {
                assert(d[i] == decimal(n / 10)[i]);
            }
        }
    } else {
        let d = decimal(n);
        assert(d.drop_last() =~= Seq::<u8>::empty());
        assert(d.last() as nat == 48 + n);
        assert(digits_value(d) == digits_value(d.drop_last()) * 10 + (d.last() - 48) as nat);
    }
}

} // verus!
