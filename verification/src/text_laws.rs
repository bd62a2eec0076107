//! What holds of the text functions and of numbers, in terms of the characters
//! alone.

use crate::number::{decimal, digit_value, digits_value, number};
use crate::text::{
    after, before, first_index, is_white_space, last_index, lemma_first_index, lemma_last_index,
    lemma_split_back, lines, lower, lower_char, same_ignoring_case, trim, trim_end, trim_start,
    upper, upper_char,
};
use vstd::prelude::*;

verus! {

// ---------------------------------------------------------------------------
// White space
// ---------------------------------------------------------------------------

/// White space is made of these characters: tab, line feed, vertical tab, form
/// feed, carriage return, space, next line, no-break space, ogham space mark,
/// the eleven spaces from en quad to hair space, line and paragraph separator,
/// narrow no-break space, medium mathematical space and ideographic space.
pub proof fn law_white_space(c: char)
    ensures
        is_white_space(c) <==> {
            let code = c as int;
            ||| code == 9 || code == 10 || code == 11 || code == 12 || code == 13
            ||| code == 32 || code == 133 || code == 160 || code == 5760
            ||| (8191 < code && code < 8203)
            ||| code == 8232 || code == 8233 || code == 8239 || code == 8287 || code == 12288
        },
{
}

/// The text holds nothing but white space.
pub open spec fn all_white(s: Seq<char>) -> bool {
    forall|i: int| 0 <= i < s.len() ==> is_white_space(#[trigger] s[i])
}

/// The text neither begins nor ends with white space.
pub open spec fn is_bare(s: Seq<char>) -> bool {
    s.len() > 0 ==> !is_white_space(s[0]) && !is_white_space(s.last())
}

/// White space in front of a text that does not begin with any is what is
/// dropped at its start.
pub proof fn law_leading_white_space_is_dropped(a: Seq<char>, s: Seq<char>)
    requires
        all_white(a),
        s.len() > 0 ==> !is_white_space(s[0]),
    ensures
        trim_start(a + s) == s,
    decreases a.len(),
{
    if a.len() == 0 {
        assert(a + s =~= s);
    } else {
        let rest = a.drop_first();
        assert(is_white_space(a[0]));
        assert((a + s).drop_first() =~= rest + s);
        assert forall|i: int| 0 <= i < rest.len() implies is_white_space(#[trigger] rest[i]) by {
            assert(rest[i] == a[i + 1]);
        }
        law_leading_white_space_is_dropped(rest, s);
    }
}

/// White space behind a text that does not end with any is what is dropped at
/// its end.
pub proof fn law_trailing_white_space_is_dropped(s: Seq<char>, b: Seq<char>)
    requires
        s.len() > 0 ==> !is_white_space(s.last()),
        all_white(b),
    ensures
        trim_end(s + b) == s,
    decreases b.len(),
{
    if b.len() == 0 {
        assert(s + b =~= s);
    } else {
        let rest = b.drop_last();
        assert(is_white_space(b[b.len() - 1]));
        assert((s + b).last() == b.last());
        assert((s + b).drop_last() =~= s + rest);
        assert forall|i: int| 0 <= i < rest.len() implies is_white_space(#[trigger] rest[i]) by {
            assert(rest[i] == b[i]);
        }
        law_trailing_white_space_is_dropped(s, rest);
    }
}

/// White space around a text is what is dropped of it, all of it and nothing
/// else.
pub proof fn law_surrounding_white_space_is_dropped(a: Seq<char>, s: Seq<char>, b: Seq<char>)
    requires
        all_white(a),
        all_white(b),
        is_bare(s),
    ensures
        trim(a + s + b) == s,
{
    if s.len() == 0 {
        let all = a + b;
        assert(a + s + b =~= all + Seq::empty());
        assert forall|i: int| 0 <= i < all.len() implies is_white_space(#[trigger] all[i]) by {
            if i < a.len() {
                assert(all[i] == a[i]);
            } else {
                assert(all[i] == b[i - a.len()]);
            }
        }
        law_leading_white_space_is_dropped(all, Seq::empty());
        assert(s =~= Seq::empty());
    } else {
        assert(a + s + b =~= a + (s + b));
        law_leading_white_space_is_dropped(a, s + b);
        law_trailing_white_space_is_dropped(s, b);
    }
}

// ---------------------------------------------------------------------------
// Splitting
// ---------------------------------------------------------------------------

/// A text is split at the first of the characters in question; without one,
/// all of it stands in front.
pub proof fn law_text_is_split_at_the_first(a: Seq<char>, c: char, b: Seq<char>)
    requires
        !a.contains(c),
    ensures
        first_index(a + seq![c] + b, c) == a.len(),
        before(a + seq![c] + b, c) == a,
        after(a + seq![c] + b, c) == b,
        first_index(a, c) == a.len(),
        before(a, c) == a,
{
    let s = a + seq![c] + b;
    lemma_split_back(a, c, b);
    assert forall|j: int| 0 <= j < a.len() implies a[j] != c && s[j] != c by {
        assert(a.contains(a[j]));
    }
    lemma_first_index(s, c, a.len() as int);
    lemma_first_index(a, c, a.len() as int);
    assert(a.take(a.len() as int) =~= a);
}

/// The last of the characters in question is the one with none behind it.
pub proof fn law_last_is_found(a: Seq<char>, c: char, b: Seq<char>)
    requires
        !b.contains(c),
    ensures
        last_index(a + seq![c] + b, c) == a.len(),
        last_index(b, c) == -1,
{
    let s = a + seq![c] + b;
    assert forall|j: int| 0 <= j < b.len() implies b[j] != c by {
        assert(b.contains(b[j]));
    }
    assert forall|j: int| a.len() < j < s.len() implies s[j] != c by {
        assert(s[j] == b[j - a.len() - 1]);
    }
    lemma_last_index(s, c, a.len() as int);
    lemma_last_index(b, c, -1);
}

/// A line ends with a line feed, or with a carriage return and a line feed; the
/// last line may lack its end. A text without characters has no lines.
pub proof fn law_lines_are_told_apart(line: Seq<char>, rest: Seq<char>)
    requires
        !line.contains('\n'),
    ensures
        lines(line + seq!['\r', '\n'] + rest) == seq![line] + lines(rest),
        line.len() == 0 || line.last() != '\r' ==> lines(line + seq!['\n'] + rest) == seq![line]
            + lines(rest),
        line.len() > 0 ==> lines(line) == seq![line],
        lines(Seq::<char>::empty()) == Seq::<Seq<char>>::empty(),
{
    let ended = line.push('\r');
    assert(line + seq!['\r', '\n'] + rest =~= ended + seq!['\n'] + rest);
    if ended.contains('\n') {
        let i = choose|i: int| 0 <= i < ended.len() && ended[i] == '\n';
        assert(line.contains(line[i]));
    }
    lemma_split_back(ended, '\n', rest);
    assert(ended.drop_last() =~= line);
    lemma_split_back(line, '\n', rest);
}

// ---------------------------------------------------------------------------
// Case
// ---------------------------------------------------------------------------

/// The two cases of a letter of the English alphabet are 32 apart; no other
/// character is touched.
pub proof fn law_case_of_a_character(c: char)
    ensures
        lower_char(c) as int == c as int + if 64 < (c as int) && (c as int) < 91 {
            32int
        } else {
            0
        },
        upper_char(c) as int == c as int - if 96 < (c as int) && (c as int) < 123 {
            32int
        } else {
            0
        },
{
}

/// Changing the case changes each character by itself.
pub proof fn law_case_of_a_text(s: Seq<char>)
    ensures
        lower(s).len() == s.len(),
        upper(s).len() == s.len(),
        forall|i: int| 0 <= i < s.len() ==> #[trigger] lower(s)[i] == lower_char(s[i]),
        forall|i: int| 0 <= i < s.len() ==> #[trigger] upper(s)[i] == upper_char(s[i]),
{
}

/// Two characters are the same letter, or the same character.
pub open spec fn same_letter(a: char, b: char) -> bool {
    ||| a == b
    ||| a as int + 32 == b as int && 64 < (a as int) && (a as int) < 91
    ||| b as int + 32 == a as int && 64 < (b as int) && (b as int) < 91
}

/// Two texts are the same but for case if and only if they are so character by
/// character.
pub proof fn law_texts_are_compared_letter_by_letter(a: Seq<char>, b: Seq<char>)
    ensures
        same_ignoring_case(a, b) <==> {
            &&& a.len() == b.len()
            &&& forall|i: int| 0 <= i < a.len() ==> #[trigger] same_letter(a[i], b[i])
        },
{
    let same = a.len() == b.len() && forall|i: int|
        0 <= i < a.len() ==> #[trigger] same_letter(a[i], b[i]);
    if same_ignoring_case(a, b) {
        assert(lower(a).len() == a.len() && lower(b).len() == b.len());
        assert forall|i: int| 0 <= i < a.len() implies #[trigger] same_letter(a[i], b[i]) by {
            assert(lower(a)[i] == lower_char(a[i]));
            assert(lower(b)[i] == lower_char(b[i]));
        }
    }
    if same {
        assert forall|i: int| 0 <= i < a.len() implies lower(a)[i] == lower(b)[i] by {
            assert(same_letter(a[i], b[i]));
        }
        assert(lower(a) =~= lower(b));
    }
}

// ---------------------------------------------------------------------------
// Numbers
// ---------------------------------------------------------------------------

/// The character stands for the digit `d`: the ten digits, then the letters, in
/// either case.
pub open spec fn is_digit(c: char, d: nat) -> bool {
    if d < 10 {
        c as int == 48 + d
    } else {
        d < 36 && (c as int == 87 + d || c as int == 55 + d)
    }
}

/// The text spells the digits, each of them below `base`.
pub open spec fn spells(text: Seq<char>, digits: Seq<nat>, base: nat) -> bool {
    &&& text.len() == digits.len()
    &&& forall|i: int|
        0 <= i < text.len() ==> base > #[trigger] digits[i] && is_digit(text[i], digits[i])
}

/// The number that comes of writing the digits behind the number `n`.
pub open spec fn appended(n: nat, digits: Seq<nat>, base: nat) -> nat
    decreases digits.len(),
{
    if digits.len() == 0 {
        n
    } else {
        appended(n * base + digits[0], digits.drop_first(), base)
    }
}

proof fn lemma_appended_push(n: nat, digits: Seq<nat>, base: nat)
    requires
        digits.len() > 0,
    ensures
        appended(n, digits, base) == appended(n, digits.drop_last(), base) * base + digits.last(),
    decreases digits.len(),
{
    if digits.len() == 1 {
        assert(digits.drop_first().len() == 0);
        assert(digits.drop_last().len() == 0);
        reveal_with_fuel(appended, 2);
    } else {
        let rest = digits.drop_first();
        assert(rest.drop_last() =~= digits.drop_last().drop_first());
        assert(rest.last() == digits.last());
        lemma_appended_push(n * base + digits[0], rest, base);
    }
}

proof fn lemma_digits_are_read(text: Seq<char>, digits: Seq<nat>, base: nat)
    requires
        2 <= base <= 36,
        spells(text, digits, base),
    ensures
        digits_value(text, base) == Some(appended(0, digits, base)),
    decreases text.len(),
{
    if text.len() > 0 {
        let t = text.drop_last();
        let ds = digits.drop_last();
        assert forall|i: int| 0 <= i < t.len() implies base > #[trigger] ds[i] && is_digit(
            t[i],
            ds[i],
        ) by {
            assert(ds[i] == digits[i]);
        }
        lemma_digits_are_read(t, ds, base);
        lemma_appended_push(0, digits, base);
        assert(digits[digits.len() - 1] < base);
        assert(digit_value(text.last(), base) == Some(digits.last()));
    }
}

/// A text of digits is read as the number that they spell, if that is at most
/// `max`; a plus sign may stand in front.
pub proof fn law_digits_are_read(text: Seq<char>, digits: Seq<nat>, base: nat, max: nat)
    requires
        2 <= base <= 36,
        text.len() > 0,
        spells(text, digits, base),
    ensures
        number(text, base, max) == if appended(0, digits, base) <= max {
            Some(appended(0, digits, base))
        } else {
            None
        },
        number(seq!['+'] + text, base, max) == number(text, base, max),
{
    lemma_digits_are_read(text, digits, base);
    assert(digits[0] < base);
    assert((seq!['+'] + text).drop_first() =~= text);
}

proof fn lemma_no_digits(text: Seq<char>, i: int, base: nat)
    requires
        2 <= base <= 36,
        0 <= i < text.len(),
        forall|d: nat| d < base ==> !#[trigger] is_digit(text[i], d),
    ensures
        digits_value(text, base) is None,
    decreases text.len(),
{
    if i < text.len() - 1 {
        assert(text.drop_last()[i] == text[i]);
        lemma_no_digits(text.drop_last(), i, base);
    } else {
        match digit_value(text.last(), base) {
            Some(d) => {
                assert(is_digit(text[i], d));
            },
            None => {},
        }
    }
}

/// A text with any other character, and one without a digit, is no number.
pub proof fn law_other_texts_are_no_numbers(text: Seq<char>, i: int, base: nat, max: nat)
    requires
        2 <= base <= 36,
        0 <= i < text.len(),
        i == 0 ==> text[0] != '+',
        forall|d: nat| d < base ==> !#[trigger] is_digit(text[i], d),
    ensures
        number(text, base, max) is None,
        number(Seq::empty(), base, max) is None,
        number(seq!['+'], base, max) is None,
{
    assert(seq!['+'].drop_first().len() == 0);
    if text[0] == '+' {
        let rest = text.drop_first();
        assert(rest[i - 1] == text[i]);
        lemma_no_digits(rest, i - 1, base);
    } else {
        lemma_no_digits(text, i, base);
    }
}

/// A number of one digit is written as that digit; one more digit is written
/// behind the others.
pub proof fn law_decimal_is_written_digit_by_digit(n: nat, d: nat)
    requires
        d < 10,
    ensures
        decimal(d).len() == 1,
        decimal(d)[0] as int == 48 + d,
        n > 0 ==> decimal(10 * n + d) == decimal(n) + decimal(d),
{
    if n > 0 {
        let m: nat = 10 * n + d;
        assert(m / 10 == n && m % 10 == d);
        assert(decimal(m) == decimal(n).push(decimal(d)[0]));
        assert(decimal(n) + decimal(d) =~= decimal(n).push(decimal(d)[0]));
    }
}

} // verus!
