//! Decimal integers in text: reading a run of digits as an `i32` and writing an
//! `i32` in decimal.

use vstd::prelude::*;

verus! {

/// `c` is one of the ASCII digits `0`..`9`.
pub open spec fn is_ascii_digit(c: char) -> bool {
    48 <= (c as u32) <= 57
}

/// The numeric value of the ASCII digit `c`.
pub open spec fn digit_value(c: char) -> int {
    (c as u32) - 48
}

/// Every character of `s` is an ASCII digit.
pub open spec fn all_ascii_digits(s: Seq<char>) -> bool {
    forall|i: int| 0 <= i < s.len() ==> is_ascii_digit(#[trigger] s[i])
}

/// The value of the digit string `s` read in base ten (0 for the empty string).
pub open spec fn decimal_value(s: Seq<char>) -> int
    decreases s.len(),
{
    if s.len() == 0 {
        0
    } else {
        decimal_value(s.drop_last()) * 10 + digit_value(s.last())
    }
}

/// `s` is text that `str::parse::<i32>` accepts and that holds no sign: a
/// non-empty run of ASCII digits whose value fits in an `i32`.
pub open spec fn parses_as_i32(s: Seq<char>) -> bool {
    &&& s.len() > 0
    &&& all_ascii_digits(s)
    &&& decimal_value(s) <= i32::MAX
}

/// A digit string has a value of at least zero.
pub proof fn lemma_decimal_value_nonneg(s: Seq<char>)
    requires
        all_ascii_digits(s),
    ensures
        decimal_value(s) >= 0,
    decreases s.len(),
{
    if s.len() > 0 {
        assert(all_ascii_digits(s.drop_last())) by {
            assert forall|i: int| 0 <= i < s.drop_last().len() implies is_ascii_digit(
                #[trigger] s.drop_last()[i],
            ) by {
                assert(s.drop_last()[i] == s[i]);
            }
        }
        lemma_decimal_value_nonneg(s.drop_last());
        assert(is_ascii_digit(s[s.len() - 1]));
    }
}

/// Reads `s` as an unsigned decimal `i32`; `None` where `s` is empty, holds a
/// character other than an ASCII digit, or names a number above `i32::MAX`.
pub fn parse_i32(s: &Vec<char>) -> (r: Option<i32>)
    ensures
        r is Some <==> parses_as_i32(s@),
        r matches Some(v) ==> v == decimal_value(s@),
{
    let n = s.len();
    if n == 0 {
        return None;
    }
    // `acc` is the value of the prefix read so far, capped at one past `i32::MAX`.
    let mut acc: i64 = 0;
    for k in 0..n
        invariant
            n == s@.len(),
            all_ascii_digits(s@.take(k as int)),
            0 <= acc <= 0x8000_0000,
            acc == (if decimal_value(s@.take(k as int)) <= 0x8000_0000 {
                decimal_value(s@.take(k as int))
            } else {
                0x8000_0000
            }),
    {
        let c = s[k];
        let code: u32 = c as u32;
        if code < 48 || code > 57 {
            assert(!is_ascii_digit(s@[k as int]));
            assert(!all_ascii_digits(s@));
            return None;
        }
        let ghost pre = s@.take(k as int);
        proof {
            assert(s@.take(k + 1).drop_last() == pre);
            assert(s@.take(k + 1).last() == c);
            assert(all_ascii_digits(s@.take(k + 1))) by {
                assert forall|i: int| 0 <= i < k + 1 implies is_ascii_digit(
                    #[trigger] s@.take(k + 1)[i],
                ) by {
                    if i < k {
                        assert(s@.take(k + 1)[i] == pre[i]);
                    }
                }
            }
            lemma_decimal_value_nonneg(pre);
        }
        let d: i64 = (code - 48) as i64;
        let next: i64 = acc * 10 + d;
        acc = if next > 0x8000_0000 { 0x8000_0000 } else { next };
    }
    assert(s@.take(n as int) == s@);
    if acc > 0x7fff_ffff {
        None
    } else {
        Some(acc as i32)
    }
}

/// The ASCII digit for `d` (meant for `d < 10`).
pub open spec fn digit_char(d: nat) -> char {
    (48 + d) as char
}

/// The decimal digits of `n`, most significant first, with no leading zeros.
pub open spec fn nat_digits(n: nat) -> Seq<char>
    decreases n,
{
    if n < 10 {
        seq![digit_char(n)]
    } else {
        nat_digits(n / 10).push(digit_char(n % 10))
    }
}

/// `v` written in decimal, with a leading `-` when it is negative.
pub open spec fn int_text(v: int) -> Seq<char> {
    if v < 0 {
        seq!['-'] + nat_digits((-v) as nat)
    } else {
        nat_digits(v as nat)
    }
}

fn push_digits(n: u64, out: &mut Vec<char>)
    ensures
        final(out)@ == old(out)@ + nat_digits(n as nat),
    decreases n,
{
    if n >= 10 {
        push_digits(n / 10, out);
    }
    let d: u8 = (n % 10) as u8;
    out.push((48u8 + d) as char);
    proof {
        assert(digit_char((n % 10) as nat) == (48u8 + d) as char);
    }
}

/// The decimal text of `v`, as `i32`'s `Display` writes it.
pub fn i32_to_text(v: i32) -> (r: Vec<char>)
    ensures
        r@ == int_text(v as int),
{
    let mut out: Vec<char> = Vec::new();
    let wide: i64 = v as i64;
    if wide < 0 {
        out.push('-');
        push_digits((-wide) as u64, &mut out);
    } else {
        push_digits(wide as u64, &mut out);
    }
    out
}

} // verus!

verus! {

/// The decimal text of a natural number is a digit string whose value is that number.
pub proof fn lemma_nat_digits_value(n: nat)
    ensures
        nat_digits(n).len() > 0,
        all_ascii_digits(nat_digits(n)),
        decimal_value(nat_digits(n)) == n,
    decreases n,
{
    assert(((48 + n % 10) as char) as u32 == 48 + n % 10);
    assert(digit_value(digit_char(n % 10)) == n % 10);
    if n < 10 {
        assert(nat_digits(n).drop_last() == Seq::<char>::empty());
        assert(nat_digits(n).last() == digit_char(n % 10));
        assert(decimal_value(nat_digits(n)) == decimal_value(Seq::<char>::empty()) * 10
            + digit_value(digit_char(n % 10)));
    } else {
        lemma_nat_digits_value(n / 10);
        let s = nat_digits(n);
        assert(s.last() == digit_char(n % 10));
        assert(decimal_value(s) == decimal_value(s.drop_last()) * 10 + digit_value(s.last()));
        assert(n == (n / 10) * 10 + n % 10);
        assert(s.drop_last() == nat_digits(n / 10));
        assert forall|i: int| 0 <= i < s.len() implies is_ascii_digit(#[trigger] s[i]) by {
            if i < s.len() - 1 {
                assert(s[i] == nat_digits(n / 10)[i]);
            }
        }
    }
}

/// Writing a non-negative `i32` in decimal and reading the text back gives
/// the same number.
pub proof fn lemma_text_then_parse(v: i32)
    requires
        v >= 0,
    ensures
        parses_as_i32(int_text(v as int)),
        decimal_value(int_text(v as int)) == v,
{
    lemma_nat_digits_value(v as nat);
}

} // verus!
