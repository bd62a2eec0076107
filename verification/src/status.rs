//! What a status line says about the response that it begins.

use crate::header::BodyFraming;
use crate::number::{decimal, law_decimal_is_read_back, lemma_decimal, number, read_number};
use crate::text::{
    chars_of, is_white_space, reads_ignoring_case, same_ignoring_case, trim_start, trimmed_start,
    white_space,
};
use vstd::prelude::*;
use vstd::slice::slice_subrange;

verus! {

/// The number of characters before the first white space.
pub open spec fn word_len(s: Seq<char>) -> nat
    decreases s.len(),
{
    if s.len() == 0 || is_white_space(s[0]) {
        0
    } else {
        1 + word_len(s.drop_first())
    }
}

/// The second of the words that white space separates, if there are two.
pub open spec fn second_word(s: Seq<char>) -> Option<Seq<char>> {
    let first = trim_start(s);
    let second = trim_start(first.skip(word_len(first) as int));
    if second.len() == 0 {
        None
    } else {
        Some(second.take(word_len(second) as int))
    }
}

/// The status code of a response: the second word of its status line, if that
/// is a number that fits in 16 bits.
pub open spec fn status(status_line: Seq<char>) -> Option<u16> {
    match second_word(status_line) {
        Some(word) => match number(word, 10, u16::MAX as nat) {
            Some(n) => Some(n as u16),
            None => None,
        },
        None => None,
    }
}

/// The response to a request with the method `method` has a body. A status
/// line without a status code is taken to announce one.
pub open spec fn has_body(method: Seq<char>, status_line: Seq<char>) -> bool {
    &&& !same_ignoring_case(method, "HEAD"@)
    &&& match status(status_line) {
        Some(code) => !(100 <= code < 200 || code == 204 || code == 304),
        None => true,
    }
}

/// The end of the response can be told without the connection being closed.
pub open spec fn ends_by_itself(
    method: Seq<char>,
    status_line: Seq<char>,
    framing: BodyFraming,
) -> bool {
    !has_body(method, status_line) || framing.chunked || framing.content_length is Some
}

/// The number of characters before the first white space.
fn find_word_end(s: &[char]) -> (r: usize)
    ensures
        r == word_len(s@),
        r <= s.len(),
{
    let mut i: usize = 0;
    assert(s@.skip(0) == s@);
    while i < s.len() && !white_space(s[i])
        invariant
            i <= s.len(),
            word_len(s@) == i + word_len(s@.skip(i as int)),
        decreases s.len() - i,
    {
        assert(s@.skip(i as int).drop_first() == s@.skip(i + 1));
        i += 1;
    }
    i
}

/// Reads the status code off a status line.
pub fn status_code(status_line: &str) -> (r: Option<u16>)
    ensures
        r == status(status_line@),
{
    let line = chars_of(status_line);
    let first = trimmed_start(line.as_slice());
    let first_end: usize = find_word_end(first);
    let rest = slice_subrange(first, first_end, first.len());
    assert(rest@ == first@.skip(first_end as int));
    let second = trimmed_start(rest);
    if second.len() == 0 {
        return None;
    }
    let word = slice_subrange(second, 0, find_word_end(second));
    assert(word@ == second@.take(word_len(second@) as int));
    match read_number(word, 10, 65535) {
        Some(n) => Some(n as u16),
        None => None,
    }
}

/// Tells whether the response to a request has a body.
pub fn response_has_body(request_method: &str, status_line: &str) -> (r: bool)
    ensures
        r == has_body(request_method@, status_line@),
{
    let method = chars_of(request_method);
    if reads_ignoring_case(method.as_slice(), "HEAD") {
        return false;
    }
    let status: u16 = match status_code(status_line) {
        Some(code) => code,
        None => 0,
    };
    !(status / 100 == 1 || status == 204 || status == 304)
}

/// Tells whether the end of the response shows without the connection being
/// closed.
pub fn response_has_self_defined_length(
    request_method: &str,
    status_line: &str,
    framing: BodyFraming,
) -> (r: bool)
    ensures
        r == ends_by_itself(request_method@, status_line@, framing),
{
    !response_has_body(request_method, status_line) || framing.chunked
        || framing.content_length.is_some()
}

// ---------------------------------------------------------------------------
// Laws
// ---------------------------------------------------------------------------

/// A word ends where white space begins.
proof fn lemma_word_len(word: Seq<char>, rest: Seq<char>)
    requires
        forall|i: int| 0 <= i < word.len() ==> !is_white_space(#[trigger] word[i]),
        rest.len() == 0 || is_white_space(rest[0]),
    ensures
        word_len(word + rest) == word.len(),
    decreases word.len(),
{
    let all = word + rest;
    if word.len() == 0 {
        assert(all =~= rest);
    } else {
        let tail = word.drop_first();
        assert(all.drop_first() =~= tail + rest);
        assert(all[0] == word[0]);
        assert forall|i: int| 0 <= i < tail.len() implies !is_white_space(#[trigger] tail[i]) by {
            assert(tail[i] == word[i + 1]);
        }
        lemma_word_len(tail, rest);
    }
}

/// The status code is read off a status line that was put together from a
/// version, a status code and anything that follows white space.
pub proof fn law_status_code_is_read(version: Seq<char>, code: u16, reason: Seq<char>)
    requires
        version.len() > 0,
        forall|i: int| 0 <= i < version.len() ==> !is_white_space(#[trigger] version[i]),
        reason.len() == 0 || is_white_space(reason[0]),
    ensures
        status(version + (seq![' '] + (decimal(code as nat) + reason))) == Some(code),
{
    let digits = decimal(code as nat);
    let second = digits + reason;
    let rest = seq![' '] + second;
    let line = version + rest;
    lemma_decimal(code as nat);
    law_decimal_is_read_back(code as nat, u16::MAX as nat);
    assert(line[0] == version[0]);
    lemma_word_len(version, rest);
    assert(line.skip(version.len() as int) =~= rest);
    assert(rest.drop_first() =~= second);
    assert(second[0] == digits[0]);
    assert('0' <= digits[0] <= '9');
    reveal_with_fuel(trim_start, 2);
    assert(trim_start(rest) == second);
    assert forall|i: int| 0 <= i < digits.len() implies !is_white_space(#[trigger] digits[i]) by {
        assert('0' <= digits[i] <= '9');
    }
    lemma_word_len(digits, reason);
    assert(second.take(digits.len() as int) =~= digits);
}

/// No body follows the head of a response to a `HEAD` request, of one without
/// content, of one that was not modified, and of one that announces another.
pub proof fn law_some_responses_have_no_body(method: Seq<char>, status_line: Seq<char>)
    ensures
        same_ignoring_case(method, "HEAD"@) ==> !has_body(method, status_line),
        status(status_line) == Some(204u16) ==> !has_body(method, status_line),
        status(status_line) == Some(304u16) ==> !has_body(method, status_line),
        status(status_line) is Some && 100 <= status(status_line).unwrap() < 200 ==> !has_body(
            method,
            status_line,
        ),
{
}

} // verus!
