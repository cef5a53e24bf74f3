//! Unsigned decimal numbers as they appear on the wire: ASCII digits, most
//! significant first, no sign and no leading zeros.

use vstd::prelude::*;

verus! {

/// Whether `b` is one of the ASCII digits `0` to `9`.
pub open spec fn is_digit(b: u8) -> bool {
    48 <= b <= 57
}

/// The decimal digits of `n`, most significant first.
pub open spec fn digits(n: nat) -> Seq<u8>
    decreases n,
{
    if n < 10 {
        seq![(n + 48) as u8]
    } else {
        digits(n / 10).push((n % 10 + 48) as u8)
    }
}

/// The number that a string of digits denotes (zero for the empty string).
pub open spec fn value(s: Seq<u8>) -> nat
    decreases s.len(),
{
    if s.len() == 0 {
        0
    } else {
        value(s.drop_last()) * 10 + (s.last() - 48) as nat
    }
}

/// Whether `s` is the one accepted spelling of a number: at least one digit,
/// digits only, and no leading zero unless the number is zero itself.
pub open spec fn canonical(s: Seq<u8>) -> bool {
    &&& s.len() > 0
    &&& forall|i: int| 0 <= i < s.len() ==> is_digit(#[trigger] s[i])
    &&& s.len() > 1 ==> s[0] != 48
}

/// What a numeric field denotes: the number it spells, if the spelling is
/// canonical and the number fits in 64 bits.
pub open spec fn number(s: Seq<u8>) -> Option<u64> {
    if canonical(s) && value(s) <= u64::MAX {
        Some(value(s) as u64)
    } else {
        None
    }
}

/// `digits` writes canonically, and `value` reads back what `digits` wrote.
pub proof fn lemma_digits_value(n: nat)
    ensures
        canonical(digits(n)),
        value(digits(n)) == n,
        n > 0 ==> digits(n)[0] != 48,
    decreases n,
{
    if n < 10 {
        assert(value(digits(n).drop_last()) == 0);
    } else {
        lemma_digits_value(n / 10);
        assert(digits(n).drop_last() =~= digits(n / 10));
    }
}

/// A canonical spelling is the one that `digits` writes for its value.
pub proof fn lemma_value_digits(s: Seq<u8>)
    requires
        canonical(s),
    ensures
        digits(value(s)) == s,
        s.len() > 1 ==> value(s) >= 10,
        s.len() == 1 ==> value(s) < 10,
    decreases s.len(),
{
    if s.len() == 1 {
        assert(value(s.drop_last()) == 0);
    } else {
        let head = s.drop_last();
        assert(canonical(head));
        lemma_value_digits(head);
        assert(value(head) >= 1);
    }
}

/// Reading more digits never makes the number smaller.
pub proof fn lemma_value_prefix(s: Seq<u8>, k: int)
    requires
        0 <= k <= s.len(),
        forall|i: int| 0 <= i < s.len() ==> is_digit(#[trigger] s[i]),
    ensures
        value(s.take(k)) <= value(s),
    decreases s.len(),
{
    if k == s.len() {
        assert(s.take(k) =~= s);
    } else {
        let head = s.drop_last();
        lemma_value_prefix(head, k);
        assert(head.take(k) =~= s.take(k));
    }
}

/// Appends the decimal spelling of `n` to `out`.
pub fn push_decimal(out: &mut Vec<u8>, n: u64)
    ensures
        final(out)@ == old(out)@ + digits(n as nat),
    decreases n,
{
    if n >= 10 {
        push_decimal(out, n / 10);
    }
    out.push((n % 10) as u8 + 48);
    assert(final(out)@ =~= old(out)@ + digits(n as nat));
}

/// Reads a numeric field: the number that `field` spells, if it spells one
/// canonically and the number fits in 64 bits.
pub fn parse_decimal(field: &[u8]) -> (r: Option<u64>)
    ensures
        r == number(field@),
{
    let len = field.len();
    if len == 0 {
        return None;
    }
    if len > 1 && field[0] == 48 {
        return None;
    }
    let mut acc: u64 = 0;
    let mut i: usize = 0;
    while i < len
        invariant
            i <= len == field@.len(),
            forall|j: int| 0 <= j < i ==> is_digit(#[trigger] field@[j]),
            acc == value(field@.take(i as int)),
        decreases len - i,
    {
        let b = field[i];
        if b < 48 || b > 57 {
            return None;
        }
        let ghost prefix = field@.take(i + 1);
        proof {
            assert(prefix.drop_last() =~= field@.take(i as int));
        }
        let next = match acc.checked_mul(10) {
            Some(tens) => tens.checked_add((b - 48) as u64),
            None => None,
        };
        match next {
            Some(v) => {
                acc = v;
            },
            None => {
                proof {
                    if canonical(field@) {
                        lemma_value_prefix(field@, i + 1);
                    }
                }
                return None;
            },
        }
        i = i + 1;
    }
    proof {
        assert(field@.take(len as int) =~= field@);
    }
    Some(acc)
}

} // verus!
