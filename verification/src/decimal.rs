//! The machine's data are 64-bit signed integers. This module holds their
//! textual form: which texts are literals, what number a literal stands for,
//! and how a number is written out.

use vstd::prelude::*;

verus! {

/// Whether `c` is one of `0` to `9`.
pub open spec fn is_digit(c: char) -> bool {
    '0' <= c <= '9'
}

/// The number that the digit `c` stands for.
pub open spec fn digit_value(c: char) -> int {
    c as int - 48
}

/// The digit that stands for `d`, for `0 <= d <= 9`.
pub open spec fn digit_char(d: int) -> char {
    (d + 48) as char
}

/// Whether `s` holds nothing but digits.
pub open spec fn all_digits(s: Seq<char>) -> bool {
    forall|i: int| 0 <= i < s.len() ==> is_digit(#[trigger] s[i])
}

/// The number that a run of digits stands for, read in base ten.
pub open spec fn digits_value(s: Seq<char>) -> int
    decreases s.len(),
{
    if s.len() == 0 {
        0
    } else {
        10 * digits_value(s.drop_last()) + digit_value(s.last())
    }
}

/// The number that the literal `s` stands for. A literal is an optional sign,
/// `+` or `-`, and then one or more digits, with nothing before, between or
/// after them, and its number fits in 64 bits. Every other text, the empty
/// one and a lone sign among them, is no literal.
pub open spec fn literal_value(s: Seq<char>) -> Option<i64> {
    let signed = s.len() > 0 && (s[0] == '-' || s[0] == '+');
    let digits = if signed {
        s.skip(1)
    } else {
        s
    };
    let value = if s.len() > 0 && s[0] == '-' {
        -digits_value(digits)
    } else {
        digits_value(digits)
    };
    if digits.len() > 0 && all_digits(digits) && i64::MIN <= value <= i64::MAX {
        Some(value as i64)
    } else {
        None
    }
}

/// The digits of `n` in base ten, the most significant first, without
/// leading zeros.
pub open spec fn digits_of(n: nat) -> Seq<char>
    decreases n,
{
    if n < 10 {
        seq![digit_char(n as int)]
    } else {
        digits_of(n / 10).push(digit_char((n % 10) as int))
    }
}

/// The canonical decimal form of `v`: its digits, after a `-` when it is
/// negative.
pub open spec fn decimal(v: int) -> Seq<char> {
    if v < 0 {
        seq!['-'] + digits_of((-v) as nat)
    } else {
        digits_of(v as nat)
    }
}

/// A run of digits stands for at least as much as each of its beginnings.
pub proof fn lemma_digits_value_grows(s: Seq<char>, k: int)
    requires
        all_digits(s),
        0 <= k <= s.len(),
    ensures
        0 <= digits_value(s.take(k)) <= digits_value(s),
    decreases s.len(),
{
    if k == s.len() {
        assert(s.take(k) =~= s);
        if s.len() > 0 {
            assert(is_digit(s[s.len() - 1]));
            lemma_digits_value_grows(s.drop_last(), k - 1);
            assert(s.drop_last().take(k - 1) =~= s.drop_last());
        }
    } else {
        assert(is_digit(s[s.len() - 1]));
        lemma_digits_value_grows(s.drop_last(), k);
        assert(s.drop_last().take(k) =~= s.take(k));
    }
}

/// The digits of `n` are digits, at least one of them, and stand for `n`.
pub proof fn lemma_digits_of(n: nat)
    ensures
        digits_of(n).len() > 0,
        all_digits(digits_of(n)),
        digits_value(digits_of(n)) == n,
    decreases n,
{
    if n < 10 {
        let s = digits_of(n);
        assert(s.drop_last() =~= Seq::<char>::empty());
        assert(digits_value(s.drop_last()) == 0);
    } else {
        lemma_digits_of(n / 10);
        let head = digits_of(n / 10);
        let s = digits_of(n);
        assert(s.drop_last() =~= head);
        assert forall|i: int| 0 <= i < s.len() implies is_digit(#[trigger] s[i]) by {
            if i < head.len() {
                assert(s[i] == head[i]);
            }
        }
    }
}

/// Reading what was written gives the number back: the canonical form of
/// every 64-bit integer is a literal, and it stands for that integer.
pub proof fn lemma_decimal_round_trip(v: i64)
    ensures
        literal_value(decimal(v as int)) == Some(v),
{
    let s = decimal(v as int);
    if v < 0 {
        let body = digits_of((-v) as nat);
        lemma_digits_of((-v) as nat);
        assert(s.skip(1) =~= body);
    } else {
        lemma_digits_of(v as nat);
        assert(is_digit(s[0]));
    }
}

/// The number that the literal `v` stands for, `None` when `v` is no
/// literal.
pub fn parse_literal(v: &Vec<char>) -> (result: Option<i64>)
    ensures
        result == literal_value(v@),
{
    let n: usize = v.len();
    if n == 0 {
        return None;
    }
    let negative: bool = v[0] == '-';
    let start: usize = if v[0] == '-' || v[0] == '+' {
        1
    } else {
        0
    };
    if start == n {
        return None;
    }
    let ghost digits = if start == 1 {
        v@.skip(1)
    } else {
        v@
    };
    let limit: u128 = if negative {
        0x8000_0000_0000_0000
    } else {
        0x7fff_ffff_ffff_ffff
    };
    let mut total: u128 = 0;
    let mut i: usize = start;
    assert(digits.take(0) =~= Seq::<char>::empty());
    while i < n
        invariant
            start <= i <= n,
            n == v.len(),
            start <= 1,
            (start == 1) == (v@[0] == '-' || v@[0] == '+'),
            negative == (v@[0] == '-'),
            digits == (if start == 1 {
                v@.skip(1)
            } else {
                v@
            }),
            limit == (if negative {
                0x8000_0000_0000_0000u128
            } else {
                0x7fff_ffff_ffff_ffffu128
            }),
            all_digits(digits.take(i - start)),
            total == digits_value(digits.take(i - start)),
            total <= limit,
        decreases n - i,
    {
        let c: char = v[i];
        let ghost seen = digits.take(i - start + 1);
        assert(seen.drop_last() =~= digits.take(i - start));
        assert(seen.last() == c);
        if !('0' <= c && c <= '9') {
            assert(!is_digit(digits[i - start]));
            return None;
        }
        let d: u128 = (c as u8 - 48) as u128;
        total = total * 10 + d;
        assert(all_digits(seen)) by {
            assert forall|j: int| 0 <= j < seen.len() implies is_digit(#[trigger] seen[j]) by {
                if j < seen.len() - 1 {
                    assert(seen[j] == digits.take(i - start)[j]);
                }
            }
        }
        if total > limit {
            proof {
                if all_digits(digits) {
                    lemma_digits_value_grows(digits, i - start + 1);
                }
            }
            return None;
        }
        i += 1;
    }
    assert(digits.take(n - start) =~= digits);
    if negative {
        if total == 0x8000_0000_0000_0000 {
            Some(i64::MIN)
        } else {
            Some(-(total as i64))
        }
    } else {
        Some(total as i64)
    }
}

/// Appends the digits of `n` to `out`.
fn push_digits(n: u128, out: &mut Vec<char>)
    ensures
        final(out)@ == old(out)@ + digits_of(n as nat),
    decreases n,
{
    if n >= 10 {
        push_digits(n / 10, out);
    }
    let d: u8 = (n % 10) as u8;
    out.push((d + 48) as char);
    assert(out@ =~= old(out)@ + digits_of(n as nat)) by {
        if n < 10 {
            assert(digits_of(n as nat) =~= seq![digit_char(n as int)]);
        }
    }
}

/// The canonical decimal form of `v`.
pub fn format_literal(v: i64) -> (result: Vec<char>)
    ensures
        result@ == decimal(v as int),
{
    let mut result: Vec<char> = Vec::new();
    let wide: i128 = v as i128;
    if wide < 0 {
        result.push('-');
        push_digits((-wide) as u128, &mut result);
    } else {
        push_digits(wide as u128, &mut result);
    }
    result
}

} // verus!
