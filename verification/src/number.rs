//! Numbers as text: writing in decimal, reading in any base.

use vstd::prelude::*;
use vstd::slice::slice_subrange;

verus! {

/// The character of a decimal digit.
pub open spec fn digit_char(d: nat) -> char {
    ('0' as u32 + d) as char
}

/// `n` in decimal, without leading zeros.
pub open spec fn decimal(n: nat) -> Seq<char>
    decreases n,
{
    if n < 10 {
        seq![digit_char(n)]
    } else {
        decimal(n / 10).push(digit_char(n % 10))
    }
}

/// Appends `n` in decimal to `out`.
pub fn push_decimal(out: &mut String, n: u128)
    ensures
        final(out)@ == old(out)@ + decimal(n as nat),
    decreases n,
{
    if n >= 10 {
        push_decimal(out, n / 10);
    }
    let d: u8 = (n % 10) as u8;
    out.push((48 + d) as char);
    assert(out@ =~= old(out)@ + decimal(n as nat));
}

/// The value of a digit in base `base`; letters of either case follow the nine.
pub open spec fn digit_value(c: char, base: nat) -> Option<nat> {
    let v: int = if '0' <= c <= '9' {
        c as int - '0' as int
    } else if 'a' <= c <= 'z' {
        c as int - 'a' as int + 10
    } else if 'A' <= c <= 'Z' {
        c as int - 'A' as int + 10
    } else {
        base as int
    };
    if v < base {
        Some(v as nat)
    } else {
        None
    }
}

/// The number that the digits of `s` stand for in base `base`, if every
/// character is such a digit.
pub open spec fn digits_value(s: Seq<char>, base: nat) -> Option<nat>
    decreases s.len(),
{
    if s.len() == 0 {
        Some(0)
    } else {
        match (digits_value(s.drop_last(), base), digit_value(s.last(), base)) {
            (Some(n), Some(d)) => Some(n * base + d),
            _ => None,
        }
    }
}

/// Reading an unsigned number: an optional plus sign, then one or more digits,
/// whose value is at most `max`.
pub open spec fn number(s: Seq<char>, base: nat, max: nat) -> Option<nat> {
    let digits = if s.len() > 0 && s[0] == '+' {
        s.drop_first()
    } else {
        s
    };
    if digits.len() == 0 {
        None
    } else {
        match digits_value(digits, base) {
            Some(n) if n <= max => Some(n),
            _ => None,
        }
    }
}

/// A text of digits stands for no smaller a number than its beginning does.
proof fn lemma_digits_grow(s: Seq<char>, base: nat, k: int)
    requires
        base >= 1,
        0 <= k <= s.len(),
        digits_value(s, base) is Some,
    ensures
        digits_value(s.take(k), base) is Some,
        digits_value(s.take(k), base).unwrap() <= digits_value(s, base).unwrap(),
    decreases s.len() - k,
{
    if k == s.len() {
        assert(s.take(k) == s);
    } else {
        lemma_digits_grow(s, base, k + 1);
        let t = s.take(k + 1);
        assert(t.drop_last() == s.take(k));
        let n = digits_value(s.take(k), base).unwrap();
        let d = digit_value(t.last(), base).unwrap();
        assert(n <= n * base + d) by (nonlinear_arith)
            requires
                base >= 1,
        ;
    }
}

/// Computes `digit_value`.
fn read_digit(c: char, base: u32) -> (r: Option<u32>)
    requires
        2 <= base <= 36,
    ensures
        match r {
            Some(d) => digit_value(c, base as nat) == Some(d as nat) && d < base,
            None => digit_value(c, base as nat) is None,
        },
{
    let v: u32 = if '0' <= c && c <= '9' {
        c as u32 - 48
    } else if 'a' <= c && c <= 'z' {
        c as u32 - 97 + 10
    } else if 'A' <= c && c <= 'Z' {
        c as u32 - 65 + 10
    } else {
        base
    };
    if v < base {
        Some(v)
    } else {
        None
    }
}

/// Reads a number made of digits alone.
fn read_digits(digits: &[char], base: u32, max: u64) -> (r: Option<u64>)
    requires
        2 <= base <= 36,
    ensures
        match r {
            Some(n) => digits_value(digits@, base as nat) == Some(n as nat) && n <= max,
            None => match digits_value(digits@, base as nat) {
                Some(n) => n > max,
                None => true,
            },
        },
{
    let mut n: u64 = 0;
    let mut i: usize = 0;
    while i < digits.len()
        invariant
            2 <= base <= 36,
            i <= digits.len(),
            n <= max,
            digits_value(digits@.take(i as int), base as nat) == Some(n as nat),
        decreases digits.len() - i,
    {
        let ghost k = i as int;
        assert(digits@.take(k + 1).drop_last() == digits@.take(k));
        proof {
            if digits_value(digits@, base as nat) is Some {
                lemma_digits_grow(digits@, base as nat, k + 1);
            }
        }
        match read_digit(digits[i], base) {
            Some(d) => {
                assert(0 <= n * base <= u64::MAX * 36) by (nonlinear_arith)
                    requires
                        0 <= n <= u64::MAX,
                        0 <= base <= 36,
                ;
                let m: u128 = n as u128 * base as u128 + d as u128;
                if m > max as u128 {
                    return None;
                }
                n = m as u64;
            },
            None => {
                return None;
            },
        }
        i += 1;
    }
    assert(digits@.take(i as int) == digits@);
    Some(n)
}

/// Reads an unsigned number of base `base` that is at most `max`.
pub fn read_number(s: &[char], base: u32, max: u64) -> (r: Option<u64>)
    requires
        2 <= base <= 36,
    ensures
        match r {
            Some(n) => number(s@, base as nat, max as nat) == Some(n as nat),
            None => number(s@, base as nat, max as nat) is None,
        },
{
    let digits = if s.len() > 0 && s[0] == '+' {
        let d = slice_subrange(s, 1, s.len());
        assert(d@ == s@.drop_first());
        d
    } else {
        s
    };
    if digits.len() == 0 {
        None
    } else {
        read_digits(digits, base, max)
    }
}

// ---------------------------------------------------------------------------
// Laws
// ---------------------------------------------------------------------------

/// A number in decimal is made of decimal digits, and these stand for it.
pub proof fn lemma_decimal(n: nat)
    ensures
        decimal(n).len() > 0,
        forall|i: int| 0 <= i < decimal(n).len() ==> '0' <= #[trigger] decimal(n)[i] <= '9',
        digits_value(decimal(n), 10) == Some(n),
    decreases n,
{
    reveal_with_fuel(digits_value, 2);
    if n < 10 {
        assert(decimal(n).drop_last().len() == 0);
    } else {
        lemma_decimal(n / 10);
        assert(decimal(n).drop_last() =~= decimal(n / 10));
    }
}

/// A number that was written in decimal is read back as it was.
pub proof fn law_decimal_is_read_back(n: nat, max: nat)
    requires
        n <= max,
    ensures
        number(decimal(n), 10, max) == Some(n),
{
    lemma_decimal(n);
    assert('0' <= decimal(n)[0]);
}

} // verus!
