//! Temperatures as whole millidegrees: reading them from text, and writing
//! them as degrees in decimal form.

use vstd::prelude::*;
use vstd::string::*;

verus! {

/// `c` is one of the ten decimal digits `0` to `9`.
pub open spec fn is_digit(c: char) -> bool {
    0x30 <= c as u32 <= 0x39
}

/// The number that the digit `c` stands for.
pub open spec fn digit_value(c: char) -> int {
    c as u32 - 0x30
}

/// Every character of `s` is a decimal digit.
pub open spec fn all_digits(s: Seq<char>) -> bool {
    forall|i: int| 0 <= i < s.len() ==> is_digit(#[trigger] s[i])
}

/// The number that the digits `s` denote in base ten.
pub open spec fn digits_value(s: Seq<char>) -> int
    decreases s.len(),
{
    if s.len() == 0 {
        0
    } else {
        digits_value(s.drop_last()) * 10 + digit_value(s.last())
    }
}

/// `s` begins with a sign.
pub open spec fn has_sign(s: Seq<char>) -> bool {
    s.len() > 0 && (s[0] == '-' || s[0] == '+')
}

/// The whole number that `s` denotes: an optional sign and at least one
/// decimal digit; `None` for any other text.
pub open spec fn integer_value(s: Seq<char>) -> Option<int> {
    let digits = if has_sign(s) {
        s.drop_first()
    } else {
        s
    };
    if digits.len() > 0 && all_digits(digits) {
        if has_sign(s) && s[0] == '-' {
            Some(-digits_value(digits))
        } else {
            Some(digits_value(digits))
        }
    } else {
        None
    }
}

/// The millidegrees that `s` denotes, where it is a whole number that a
/// reading can hold.
pub open spec fn millidegrees_value(s: Seq<char>) -> Option<i64> {
    match integer_value(s) {
        Some(v) => if i64::MIN <= v <= i64::MAX {
            Some(v as i64)
        } else {
            None
        },
        None => None,
    }
}

/// A number keeps growing as digits are added to it.
proof fn lemma_digits_prefix(s: Seq<char>, k: int)
    requires
        all_digits(s),
        0 <= k <= s.len(),
    ensures
        0 <= digits_value(s.take(k)) <= digits_value(s),
    decreases s.len(),
{
    if s.len() == 0 {
        assert(s.take(k) =~= s);
    } else if k == s.len() {
        assert(s.take(k) =~= s);
        lemma_digits_prefix(s.drop_last(), k - 1);
        assert(is_digit(s.last()));
    } else {
        assert(all_digits(s.drop_last())) by {
            assert forall|i: int| 0 <= i < s.drop_last().len() implies is_digit(
                #[trigger] s.drop_last()[i],
            ) by {
                assert(s.drop_last()[i] == s[i]);
            }
        }
        lemma_digits_prefix(s.drop_last(), k);
        assert(s.drop_last().take(k) =~= s.take(k));
        assert(is_digit(s.last()));
    }
}

/// Reads a whole number of millidegrees: an optional sign, then decimal
/// digits. Any other text, and a number that does not fit, gives `None`.
pub fn parse_millidegrees(text: &str) -> (r: Option<i64>)
    ensures
        r == millidegrees_value(text@),
{
    let n: usize = text.unicode_len();
    if n == 0 {
        return None;
    }
    let lead: char = text.get_char(0);
    let negative: bool = lead == '-';
    let first: usize = if lead == '-' || lead == '+' {
        1
    } else {
        0
    };
    if first == n {
        return None;
    }
    let ghost digits = text@.skip(first as int);
    proof {
        assert(text@.drop_first() =~= text@.skip(1));
        assert(text@.skip(0) =~= text@);
        assert(digits.take(0) =~= Seq::<char>::empty());
    }
    let mut acc: i128 = 0;
    let mut i: usize = first;
    while i < n
        invariant
            first <= i <= n,
            n == text@.len(),
            digits == text@.skip(first as int),
            digits == if has_sign(text@) {
                text@.drop_first()
            } else {
                text@
            },
            all_digits(digits.take(i - first)),
            acc == digits_value(digits.take(i - first)),
            0 <= acc <= 0x8000_0000_0000_0000,
        decreases n - i,
    {
        let c: char = text.get_char(i);
        let u: u32 = c as u32;
        if u < 0x30 || u > 0x39 {
            proof {
                assert(digits[i - first] == c);
            }
            return None;
        }
        let d: i128 = (u - 0x30) as i128;
        let next: i128 = acc * 10 + d;
        proof {
            let upto = digits.take(i - first + 1);
            assert(upto.drop_last() =~= digits.take(i - first));
            assert(upto.last() == c);
            assert(all_digits(upto)) by {
                assert forall|k: int| 0 <= k < upto.len() implies is_digit(#[trigger] upto[k]) by {
                    if k < i - first {
                        assert(upto[k] == digits.take(i - first)[k]);
                    }
                }
            }
            assert(next == digits_value(upto));
        }
        if next > 0x8000_0000_0000_0000 {
            proof {
                if all_digits(digits) {
                    lemma_digits_prefix(digits, i - first + 1);
                }
            }
            return None;
        }
        acc = next;
        i += 1;
    }
    proof {
        assert(digits.take(n - first) =~= digits);
    }
    if negative {
        Some((-acc) as i64)
    } else if acc > 0x7FFF_FFFF_FFFF_FFFF {
        None
    } else {
        Some(acc as i64)
    }
}

/// The character for the digit `d`.
pub open spec fn digit_char(d: int) -> char {
    if d == 0 {
        '0'
    } else if d == 1 {
        '1'
    } else if d == 2 {
        '2'
    } else if d == 3 {
        '3'
    } else if d == 4 {
        '4'
    } else if d == 5 {
        '5'
    } else if d == 6 {
        '6'
    } else if d == 7 {
        '7'
    } else if d == 8 {
        '8'
    } else {
        '9'
    }
}

/// `n` in decimal digits, without leading zeros.
pub open spec fn natural_text(n: nat) -> Seq<char>
    decreases n,
{
    if n < 10 {
        seq![digit_char(n as int)]
    } else {
        natural_text(n / 10).push(digit_char((n % 10) as int))
    }
}

/// The thousandths `f` as a decimal fraction: a point and up to three digits,
/// the last of them not zero; nothing where `f` is zero.
pub open spec fn fraction_text(f: nat) -> Seq<char> {
    if f == 0 {
        Seq::empty()
    } else if f % 100 == 0 {
        seq!['.', digit_char((f / 100) as int)]
    } else if f % 10 == 0 {
        seq!['.', digit_char((f / 100) as int), digit_char((f / 10 % 10) as int)]
    } else {
        seq![
            '.',
            digit_char((f / 100) as int),
            digit_char((f / 10 % 10) as int),
            digit_char((f % 10) as int),
        ]
    }
}

/// `m` millidegrees as degrees in decimal form: a minus sign where `m` is
/// negative, the whole degrees, and the thousandths where there are any.
pub open spec fn celsius_text(m: int) -> Seq<char> {
    let magnitude = if m < 0 {
        (-m) as nat
    } else {
        m as nat
    };
    let unsigned = natural_text(magnitude / 1000) + fraction_text(magnitude % 1000);
    if m < 0 {
        seq!['-'] + unsigned
    } else {
        unsigned
    }
}

/// The digit `d` as text.
fn digit_text(d: u64) -> (r: &'static str)
    requires
        d < 10,
    ensures
        r@ == seq![digit_char(d as int)],
{
    proof {
        reveal_strlit("0");
        reveal_strlit("1");
        reveal_strlit("2");
        reveal_strlit("3");
        reveal_strlit("4");
        reveal_strlit("5");
        reveal_strlit("6");
        reveal_strlit("7");
        reveal_strlit("8");
        reveal_strlit("9");
    }
    let r = if d == 0 {
        "0"
    } else if d == 1 {
        "1"
    } else if d == 2 {
        "2"
    } else if d == 3 {
        "3"
    } else if d == 4 {
        "4"
    } else if d == 5 {
        "5"
    } else if d == 6 {
        "6"
    } else if d == 7 {
        "7"
    } else if d == 8 {
        "8"
    } else {
        "9"
    };
    assert(r@ =~= seq![digit_char(d as int)]);
    r
}

/// Appends `n` in decimal digits to `out`.
fn push_natural(out: &mut String, n: u64)
    ensures
        final(out)@ == old(out)@ + natural_text(n as nat),
    decreases n,
{
    if n >= 10 {
        push_natural(out, n / 10);
    }
    out.append(digit_text(n % 10));
    proof {
        if n >= 10 {
            assert(old(out)@ + natural_text((n / 10) as nat) + seq![digit_char((n % 10) as int)]
                =~= old(out)@ + natural_text(n as nat));
        }
    }
}

/// Appends the thousandths `f` as a decimal fraction to `out`.
fn push_fraction(out: &mut String, f: u64)
    requires
        f < 1000,
    ensures
        final(out)@ == old(out)@ + fraction_text(f as nat),
{
    if f == 0 {
        proof {
            assert(old(out)@ + fraction_text(f as nat) =~= old(out)@);
        }
        return ;
    }
    proof {
        reveal_strlit(".");
    }
    out.append(".");
    out.append(digit_text(f / 100));
    if f % 100 != 0 {
        out.append(digit_text(f / 10 % 10));
        if f % 10 != 0 {
            out.append(digit_text(f % 10));
        }
    }
    proof {
        assert(final(out)@ =~= old(out)@ + fraction_text(f as nat));
    }
}

/// Writes `millidegrees` as degrees in decimal form, exactly: the whole
/// degrees and, where there are any, the thousandths without trailing zeros.
pub fn render_celsius(millidegrees: i64) -> (r: String)
    ensures
        r@ == celsius_text(millidegrees as int),
{
    let mut out = String::new();
    let magnitude: u64 = if millidegrees < 0 {
        proof {
            reveal_strlit("-");
        }
        out.append("-");
        (-(millidegrees + 1)) as u64 + 1
    } else {
        millidegrees as u64
    };
    push_natural(&mut out, magnitude / 1000);
    push_fraction(&mut out, magnitude % 1000);
    proof {
        assert(out@ =~= celsius_text(millidegrees as int));
    }
    out
}

} // verus!
