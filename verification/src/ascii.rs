//! Byte-level ASCII helpers shared by the header, URI and framing modules:
//! case-insensitive comparison, digit parsing and decimal formatting.

use vstd::prelude::*;

verus! {

/// The ASCII lowercase image of one byte: letters `A..Z` move to `a..z`,
/// every other byte stays itself.
pub open spec fn lower_byte(b: u8) -> u8 {
    if 65u8 <= b && b <= 90u8 {
        (b + 32) as u8
    } else {
        b
    }
}

/// The ASCII lowercase image of a byte sequence.
pub open spec fn lower_bytes(s: Seq<u8>) -> Seq<u8> {
    s.map_values(|b: u8| lower_byte(b))
}

/// Two byte sequences are equal up to ASCII case.
pub open spec fn eq_ignore_case(a: Seq<u8>, b: Seq<u8>) -> bool {
    lower_bytes(a) == lower_bytes(b)
}

/// Compares two byte slices for equality up to ASCII case.
pub fn eq_ignore_ascii_case(a: &[u8], b: &[u8]) -> (r: bool)
    ensures
        r == eq_ignore_case(a@, b@),
{
    if a.len() != b.len() {
        assert(lower_bytes(a@).len() != lower_bytes(b@).len());
        return false;
    }
    let mut i: usize = 0;
    while i < a.len()
        invariant
            0 <= i <= a.len(),
            a@.len() == b@.len(),
            forall|j: int| 0 <= j < i ==> lower_byte(a@[j]) == lower_byte(b@[j]),
        decreases a.len() - i,
    {
        let x = lower_u8(a[i]);
        let y = lower_u8(b[i]);
        if x != y {
            assert(lower_bytes(a@)[i as int] != lower_bytes(b@)[i as int]);
            return false;
        }
        i += 1;
    }
    assert(lower_bytes(a@) =~= lower_bytes(b@));
    true
}

/// Lowercases one byte.
pub fn lower_u8(b: u8) -> (r: u8)
    ensures
        r == lower_byte(b),
{
    if 65u8 <= b && b <= 90u8 {
        b + 32
    } else {
        b
    }
}

/// Whether `b` is an ASCII decimal digit.
pub open spec fn is_digit(b: u8) -> bool {
    48u8 <= b <= 57u8
}

/// Whether every byte of `s` is an ASCII decimal digit.
pub open spec fn all_digits(s: Seq<u8>) -> bool {
    forall|i: int| 0 <= i < s.len() ==> is_digit(#[trigger] s[i])
}

/// The number denoted by the digit string `s`, most significant digit first.
pub open spec fn digits_value(s: Seq<u8>) -> nat
    decreases s.len(),
{
    if s.len() == 0 {
        0
    } else {
        (digits_value(s.drop_last()) * 10 + (s.last() - 48u8)) as nat
    }
}

/// The shortest decimal digit string denoting `n` (just `"0"` for zero).
pub open spec fn decimal_of(n: nat) -> Seq<u8>
    decreases n,
{
    if n < 10 {
        seq![(48u8 + n) as u8]
    } else {
        decimal_of(n / 10).push((48u8 + n % 10) as u8)
    }
}

/// The decimal digit string of `n` is nonempty, all digits, and denotes `n`.
pub proof fn lemma_decimal_of_digits(n: nat)
    ensures
        all_digits(decimal_of(n)),
        decimal_of(n).len() >= 1,
        digits_value(decimal_of(n)) == n,
    decreases n,
{
    if n < 10 {
        assert(decimal_of(n) =~= seq![(48u8 + n) as u8]);
        assert(decimal_of(n).drop_last() =~= Seq::<u8>::empty());
        assert(is_digit(decimal_of(n)[0]));
        assert(digits_value(Seq::<u8>::empty()) == 0);
        assert(digits_value(decimal_of(n)) == digits_value(decimal_of(n).drop_last()) * 10 + (
        decimal_of(n).last() - 48u8));
        assert(digits_value(decimal_of(n)) == n);
    } else {
        lemma_decimal_of_digits(n / 10);
        let s = decimal_of(n);
        let t = decimal_of(n / 10);
        assert(s =~= t.push((48u8 + n % 10) as u8));
        assert(s.drop_last() =~= t);
        assert(forall|i: int| 0 <= i < s.len() ==> is_digit(#[trigger] s[i])) by {
            assert(forall|i: int| 0 <= i < t.len() ==> is_digit(#[trigger] t[i]));
            assert(s.last() == (48u8 + n % 10) as u8);
            assert(forall|i: int|
                0 <= i < s.len() ==> s[i] == if i < t.len() {
                    t[i]
                } else {
                    s.last()
                });
        }
        assert(digits_value(s) == digits_value(t) * 10 + (s.last() - 48u8));
        assert(n / 10 * 10 + n % 10 == n) by {
            vstd::arithmetic::div_mod::lemma_fundamental_div_mod(n as int, 10);
        }
    }
}

/// Appending digits never decreases the denoted value.
proof fn lemma_digits_value_prefix_le(s: Seq<u8>, i: int)
    requires
        all_digits(s),
        0 <= i <= s.len(),
    ensures
        digits_value(s.take(i)) <= digits_value(s),
    decreases s.len() - i,
{
    if i < s.len() {
        let t = s.take(i + 1);
        assert(t.drop_last() =~= s.take(i));
        assert(is_digit(t.last()));
        assert(digits_value(t) == digits_value(s.take(i)) * 10 + (t.last() - 48u8));
        lemma_digits_value_prefix_le(s, i + 1);
    } else {
        assert(s.take(i) =~= s);
    }
}

/// Parses a nonempty string of decimal digits as a `u64`, most significant
/// digit first. Returns `None` when a byte is no digit, when the string is
/// empty, or when the value does not fit.
pub fn parse_u64_digits(s: &[u8]) -> (r: Option<u64>)
    ensures
        match r {
            Some(v) => all_digits(s@) && s@.len() >= 1 && digits_value(s@) == v,
            None => !(all_digits(s@) && s@.len() >= 1 && digits_value(s@) <= u64::MAX),
        },
{
    if s.len() == 0 {
        return None;
    }
    let mut acc: u64 = 0;
    let mut i: usize = 0;
    while i < s.len()
        invariant
            0 <= i <= s@.len(),
            all_digits(s@.take(i as int)),
            acc == digits_value(s@.take(i as int)),
        decreases s@.len() - i,
    {
        let b = s[i];
        if !(48u8 <= b && b <= 57u8) {
            assert(!is_digit(s@[i as int]));
            return None;
        }
        let d: u64 = (b - 48) as u64;
        if acc > (u64::MAX - d) / 10 {
            proof {
                assert(acc * 10 + d > u64::MAX) by (nonlinear_arith)
                    requires
                        acc > (u64::MAX - d) / 10,
                        d <= 9,
                        u64::MAX - d == ((u64::MAX - d) / 10) * 10 + (u64::MAX - d) % 10,
                        (u64::MAX - d) % 10 < 10,
                {}
                if all_digits(s@) {
                    let t = s@.take(i as int + 1);
                    assert(t.drop_last() =~= s@.take(i as int));
                    assert(digits_value(t) == acc * 10 + (b - 48u8));
                    lemma_digits_value_prefix_le(s@, i as int + 1);
                    assert(digits_value(s@) > u64::MAX);
                }
            }
            return None;
        }
        proof {
            assert(acc * 10 + d <= u64::MAX) by (nonlinear_arith)
                requires
                    acc <= (u64::MAX - d) / 10,
                    u64::MAX - d >= ((u64::MAX - d) / 10) * 10,
            {}
            let t = s@.take(i as int + 1);
            assert(t.drop_last() =~= s@.take(i as int));
            assert(t.last() == s@[i as int]);
            assert(digits_value(t) == digits_value(s@.take(i as int)) * 10 + (b - 48u8));
        }
        acc = acc * 10 + d;
        i += 1;
    }
    proof {
        assert(s@.take(i as int) =~= s@);
    }
    Some(acc)
}

/// Formats `n` as its decimal digit string.
pub fn format_u64(n: u64) -> (r: Vec<u8>)
    ensures
        r@ == decimal_of(n as nat),
{
    let mut digits: Vec<u8> = Vec::new();
    let mut m: u64 = n;
    // Collect the digits least significant first, then reverse.
    loop
        invariant_except_break
            decimal_of(n as nat) == decimal_of(m as nat) + digits@.reverse(),
        ensures
            decimal_of(n as nat) == digits@.reverse(),
        decreases m,
    {
        let ghost pre = digits@;
        let d: u8 = (m % 10) as u8;
        digits.push(48u8 + d);
        proof {
            assert(digits@.reverse() =~= seq![(48u8 + d) as u8] + pre.reverse());
        }
        if m < 10 {
            proof {
                assert(decimal_of(m as nat) =~= seq![(48u8 + d) as u8]);
                assert(decimal_of(n as nat) =~= decimal_of(m as nat) + pre.reverse());
                assert(decimal_of(n as nat) =~= digits@.reverse());
            }
            break;
        }
        proof {
            assert(decimal_of(m as nat) =~= decimal_of((m / 10) as nat).push(
                (48u8 + (m % 10) as u8) as u8,
            ));
            assert(decimal_of((m / 10) as nat) + digits@.reverse() =~= decimal_of(m as nat)
                + pre.reverse());
        }
        m = m / 10;
    }
    let mut r: Vec<u8> = Vec::new();
    let mut i: usize = digits.len();
    while i > 0
        invariant
            0 <= i <= digits.len(),
            r@ =~= digits@.subrange(i as int, digits@.len() as int).reverse(),
        decreases i,
    {
        i -= 1;
        let ghost pre = r@;
        r.push(digits[i]);
        proof {
            assert(digits@.subrange(i as int, digits@.len() as int).reverse() =~= pre.push(
                digits@[i as int],
            ));
        }
    }
    proof {
        assert(digits@.subrange(0, digits@.len() as int) =~= digits@);
    }
    r
}

} // verus!
