//! Header lines: what they announce about a body, and which of them concern
//! one connection only.
//!
//! A header line is kept as it was read, its line end included.

use crate::number::{decimal, law_decimal_is_read_back, lemma_decimal, number, read_number};
use crate::text::{
    after, before, begins_with, chars_of, find_from, is_piece, lemma_split_back, lower,
    reads_ignoring_case, same_ignoring_case, split_once, text_of, to_lower, trim, trim_end,
    trim_start, trimmed,
};
use vstd::prelude::*;
use vstd::slice::slice_subrange;
use vstd::string::StringExecFns;

verus! {

/// The texts of a sequence of strings.
pub open spec fn texts(v: Seq<String>) -> Seq<Seq<char>> {
    Seq::new(v.len(), |i: int| v[i]@)
}

/// What a message says about the extent of its body.
#[derive(Clone, Copy)]
pub struct BodyFraming {
    pub content_length: Option<u64>,
    pub chunked: bool,
}

// ---------------------------------------------------------------------------
// One line
// ---------------------------------------------------------------------------

/// The line is a header with the name `name`, in any case. The name is what
/// stands before the first colon, white space included.
pub open spec fn is_named(line: Seq<char>, name: Seq<char>) -> bool {
    line.contains(':') && same_ignoring_case(before(line, ':'), name)
}

/// The value of a header line: what stands after the first colon.
pub open spec fn value(line: Seq<char>) -> Seq<char> {
    after(line, ':')
}

/// `list` is a comma-separated list, one element of which is `token`, in any
/// case and surrounded by any white space.
pub open spec fn has_token(list: Seq<char>, token: Seq<char>) -> bool {
    exists|a: int, b: int| #[trigger]
        is_piece(list, ',', a, b) && same_ignoring_case(trim(list.subrange(a, b)), token)
}

/// Tells whether a comma-separated list holds `token`.
fn list_has_token(list: &[char], token: &str) -> (r: bool)
    ensures
        r == has_token(list@, token@),
{
    let mut a: usize = 0;
    loop
        invariant
            a <= list.len(),
            a == 0 || list@[a - 1] == ',',
            forall|x: int, y: int| #[trigger]
                is_piece(list@, ',', x, y) && x < a ==> !same_ignoring_case(
                    trim(list@.subrange(x, y)),
                    token@,
                ),
        decreases list.len() - a,
    {
        let b: usize = find_from(list, a, ',');
        let piece = slice_subrange(list, a, b);
        assert(is_piece(list@, ',', a as int, b as int));
        if reads_ignoring_case(trimmed(piece), token) {
            return true;
        }
        proof {
            assert forall|x: int, y: int| #[trigger]
                is_piece(list@, ',', x, y) && x <= b implies !same_ignoring_case(
                trim(list@.subrange(x, y)),
                token@,
            ) by {
                if x == a {
                    if y < b {
                        assert(list@[y] != ',');
                    }
                    if b < y {
                        assert(list@[b as int] == ',');
                    }
                } else if x > a {
                    assert(list@[x - 1] != ',');
                }
            }
        }
        if b == list.len() {
            return false;
        }
        a = b + 1;
    }
}

/// The header line, its ASCII letters in lower case, concerns only the
/// connection that it was received on.
pub open spec fn is_hop_by_hop(lower: Seq<char>) -> bool {
    ||| "connection:"@.is_prefix_of(lower)
    ||| "proxy-"@.is_prefix_of(lower)
    ||| "keep-alive:"@.is_prefix_of(lower)
    ||| "te:"@.is_prefix_of(lower)
    ||| "trailer:"@.is_prefix_of(lower)
    ||| "upgrade:"@.is_prefix_of(lower)
}

/// Tells whether a header line in lower case concerns one connection only.
pub fn is_hop_by_hop_header(lower: &str) -> (r: bool)
    ensures
        r == is_hop_by_hop(lower@),
{
    let s = chars_of(lower);
    let s = s.as_slice();
    begins_with(s, "connection:") || begins_with(s, "proxy-") || begins_with(s, "keep-alive:")
        || begins_with(s, "te:") || begins_with(s, "trailer:") || begins_with(s, "upgrade:")
}

// ---------------------------------------------------------------------------
// All lines of a head
// ---------------------------------------------------------------------------

/// The length that the headers announce: that of the last `Content-Length`,
/// if it holds a number that fits in 64 bits.
pub open spec fn content_length(headers: Seq<Seq<char>>) -> Option<u64>
    decreases headers.len(),
{
    if headers.len() == 0 {
        None
    } else if is_named(headers.last(), "content-length"@) {
        match number(trim(value(headers.last())), 10, u64::MAX as nat) {
            Some(n) => Some(n as u64),
            None => None,
        }
    } else {
        content_length(headers.drop_last())
    }
}

/// Some header has the name `name` and lists `token`.
pub open spec fn lists_token(
    headers: Seq<Seq<char>>,
    name: Seq<char>,
    token: Seq<char>,
) -> bool {
    exists|i: int|
        0 <= i < headers.len() && is_named(#[trigger] headers[i], name) && has_token(
            value(headers[i]),
            token,
        )
}

/// What a head announces about the body that follows it.
pub open spec fn framing(headers: Seq<Seq<char>>) -> BodyFraming {
    BodyFraming {
        content_length: content_length(headers),
        chunked: lists_token(headers, "transfer-encoding"@, "chunked"@),
    }
}

/// No line carries both of the names that announce a body.
proof fn lemma_framing_names_differ(line: Seq<char>)
    ensures
        !(is_named(line, "content-length"@) && is_named(line, "transfer-encoding"@)),
{
    reveal_strlit("content-length");
    reveal_strlit("transfer-encoding");
    assert(lower("content-length"@).len() != lower("transfer-encoding"@).len());
}

/// Reads off the headers how long the body is.
pub fn body_framing(headers: &[String]) -> (r: BodyFraming)
    ensures
        r == framing(texts(headers@)),
{
    let ghost all = texts(headers@);
    let mut content_length: Option<u64> = None;
    let mut chunked = false;
    let mut i: usize = 0;
    while i < headers.len()
        invariant
            all == texts(headers@),
            i <= headers.len(),
            content_length == self::content_length(all.take(i as int)),
            chunked == lists_token(all.take(i as int), "transfer-encoding"@, "chunked"@),
        decreases headers.len() - i,
    {
        let ghost seen = all.take(i as int);
        let ghost now = all.take(i + 1);
        let line = chars_of(headers[i].as_str());
        proof {
            assert(now.drop_last() == seen);
            assert(now.last() == line@);
            lemma_framing_names_differ(line@);
            lemma_lists_token_push(now, "transfer-encoding"@, "chunked"@);
        }
        match split_once(line.as_slice(), ':') {
            Some((name, value)) => {
                if reads_ignoring_case(name, "content-length") {
                    content_length = read_number(trimmed(value), 10, u64::MAX);
                } else if reads_ignoring_case(name, "transfer-encoding") && list_has_token(
                    value,
                    "chunked",
                ) {
                    chunked = true;
                }
            },
            None => {},
        }
        i += 1;
    }
    assert(all.take(i as int) == all);
    BodyFraming { content_length, chunked }
}

/// One more header adds its own tokens and no others.
proof fn lemma_lists_token_push(headers: Seq<Seq<char>>, name: Seq<char>, token: Seq<char>)
    requires
        headers.len() > 0,
    ensures
        lists_token(headers, name, token) == (lists_token(headers.drop_last(), name, token) || (
        is_named(headers.last(), name) && has_token(value(headers.last()), token))),
{
    let init = headers.drop_last();
    if lists_token(init, name, token) {
        let i = choose|i: int|
            0 <= i < init.len() && is_named(#[trigger] init[i], name) && has_token(
                value(init[i]),
                token,
            );
        assert(headers[i] == init[i]);
    }
    if lists_token(headers, name, token) {
        let i = choose|i: int|
            0 <= i < headers.len() && is_named(#[trigger] headers[i], name) && has_token(
                value(headers[i]),
                token,
            );
        if i < init.len() {
            assert(headers[i] == init[i]);
        }
    }
}

/// Tells whether a header with the name `name` lists `token`.
pub fn headers_list_token(headers: &[String], name: &str, token: &str) -> (r: bool)
    ensures
        r == lists_token(texts(headers@), name@, token@),
{
    let ghost all = texts(headers@);
    let mut i: usize = 0;
    while i < headers.len()
        invariant
            all == texts(headers@),
            i <= headers.len(),
            !lists_token(all.take(i as int), name@, token@),
        decreases headers.len() - i,
    {
        let line = chars_of(headers[i].as_str());
        proof {
            assert(all.take(i + 1).drop_last() == all.take(i as int));
            lemma_lists_token_push(all.take(i + 1), name@, token@);
            assert(all[i as int] == line@);
        }
        match split_once(line.as_slice(), ':') {
            Some((line_name, value)) => {
                if reads_ignoring_case(line_name, name) && list_has_token(value, token) {
                    return true;
                }
            },
            None => {},
        }
        i += 1;
    }
    assert(all.take(i as int) == all);
    false
}

/// The header line is passed on to the next connection.
pub open spec fn is_forwarded(line: Seq<char>) -> bool {
    !is_hop_by_hop(lower(line))
}

/// The header lines that are passed on, in order.
pub open spec fn forwarded(headers: Seq<Seq<char>>) -> Seq<Seq<char>> {
    headers.filter(|h: Seq<char>| is_forwarded(h))
}

/// A sequence of texts, one behind the other.
pub open spec fn joined(parts: Seq<Seq<char>>) -> Seq<char>
    decreases parts.len(),
{
    if parts.len() == 0 {
        Seq::empty()
    } else {
        joined(parts.drop_last()) + parts.last()
    }
}

/// Appends to `out` the header lines that are passed on.
pub fn push_forwarded(out: &mut String, headers: &[String])
    ensures
        final(out)@ == old(out)@ + joined(forwarded(texts(headers@))),
{
    let ghost all = texts(headers@);
    let ghost start = out@;
    let mut i: usize = 0;
    proof {
        assert(all.take(0) =~= Seq::<Seq<char>>::empty());
        reveal(Seq::filter);
    }
    while i < headers.len()
        invariant
            all == texts(headers@),
            i <= headers.len(),
            out@ =~= start + joined(forwarded(all.take(i as int))),
        decreases headers.len() - i,
    {
        let ghost before = out@;
        let line = chars_of(headers[i].as_str());
        let lower_line = to_lower(line.as_slice());
        let hop = is_hop_by_hop_header(text_of(lower_line.as_slice()).as_str());
        proof {
            reveal(Seq::filter);
            assert(all.take(i + 1).drop_last() == all.take(i as int));
            assert(all.take(i + 1).last() == line@);
            let f = forwarded(all.take(i + 1));
            if !hop {
                assert(f.drop_last() == forwarded(all.take(i as int)));
                assert(f.last() == line@);
            }
        }
        if !hop {
            out.append(headers[i].as_str());
        }
        i += 1;
    }
    assert(all.take(i as int) == all);
}

// ---------------------------------------------------------------------------
// Laws
// ---------------------------------------------------------------------------

/// No header that concerns one connection only is passed on, every other one
/// is, and none is passed on that was not there.
pub proof fn law_only_hop_by_hop_headers_are_dropped(headers: Seq<Seq<char>>, line: Seq<char>)
    ensures
        forwarded(headers).contains(line) <==> headers.contains(line) && !is_hop_by_hop(
            lower(line),
        ),
    decreases headers.len(),
{
    reveal(Seq::filter);
    if headers.len() > 0 {
        let init = headers.drop_last();
        law_only_hop_by_hop_headers_are_dropped(init, line);
        let kept = forwarded(headers);
        if is_forwarded(headers.last()) {
            assert(kept == forwarded(init).push(headers.last()));
            if kept.contains(line) {
                let i = choose|i: int| 0 <= i < kept.len() && kept[i] == line;
                if i < forwarded(init).len() {
                    assert(forwarded(init)[i] == line);
                }
            }
            if forwarded(init).contains(line) {
                let i = choose|i: int| 0 <= i < forwarded(init).len() && forwarded(init)[i] == line;
                assert(kept[i] == line);
            }
            assert(kept[kept.len() - 1] == headers.last());
        }
        if init.contains(line) {
            let i = choose|i: int| 0 <= i < init.len() && init[i] == line;
            assert(headers[i] == line);
        }
        assert(headers[headers.len() - 1] == headers.last());
        if headers.contains(line) && line != headers.last() {
            let i = choose|i: int| 0 <= i < headers.len() && headers[i] == line;
            assert(init[i] == line);
        }
    }
}

/// Passing on what was passed on already drops nothing more.
pub proof fn law_passing_on_twice_is_passing_on_once(headers: Seq<Seq<char>>)
    ensures
        forwarded(forwarded(headers)) == forwarded(headers),
    decreases headers.len(),
{
    reveal(Seq::filter);
    if headers.len() > 0 {
        let init = headers.drop_last();
        law_passing_on_twice_is_passing_on_once(init);
        if is_forwarded(headers.last()) {
            assert(forwarded(headers).drop_last() =~= forwarded(init));
        }
    }
}

/// The headers of two parts of a head are passed on as those of the first part
/// and those of the second.
pub proof fn law_headers_are_passed_on_in_order(a: Seq<Seq<char>>, b: Seq<Seq<char>>)
    ensures
        forwarded(a + b) == forwarded(a) + forwarded(b),
    decreases b.len(),
{
    reveal(Seq::filter);
    if b.len() == 0 {
        assert(a + b =~= a);
        assert(forwarded(a) + forwarded(b) =~= forwarded(a));
    } else {
        law_headers_are_passed_on_in_order(a, b.drop_last());
        assert((a + b).drop_last() =~= a + b.drop_last());
        assert(forwarded(a + b) =~= forwarded(a) + forwarded(b));
    }
}

/// The case of a header line does not matter for whether it is passed on.
pub proof fn law_case_does_not_matter(a: Seq<char>, b: Seq<char>)
    requires
        same_ignoring_case(a, b),
    ensures
        is_forwarded(a) == is_forwarded(b),
{
}

/// The length in the last `Content-Length` header is the one that counts.
pub proof fn law_content_length_is_read(headers: Seq<Seq<char>>, n: u64)
    ensures
        content_length(
            headers.push("Content-Length"@ + seq![':'] + (" "@ + decimal(n as nat) + "\r\n"@)),
        ) == Some(n),
{
    let name = "Content-Length"@;
    let digits = decimal(n as nat);
    let text = " "@ + digits + "\r\n"@;
    let line = name + seq![':'] + text;
    reveal_strlit("Content-Length");
    reveal_strlit("content-length");
    reveal_strlit(" ");
    reveal_strlit("\r\n");
    assert forall|i: int| 0 <= i < name.len() implies name[i] != ':' by {}
    lemma_split_back(name, ':', text);
    assert(lower(name) =~= lower("content-length"@));
    lemma_decimal(n as nat);
    law_decimal_is_read_back(n as nat, u64::MAX as nat);
    let rest = digits + "\r\n"@;
    assert(text[0] == ' ');
    assert(text.drop_first() =~= rest);
    assert(rest[0] == digits[0]);
    assert('0' <= digits[0] <= '9');
    assert('0' <= digits[digits.len() - 1] <= '9');
    reveal_with_fuel(trim_start, 2);
    assert(trim_start(text) == rest);
    assert(rest.last() == '\n');
    assert(rest.drop_last().last() == '\r');
    assert(rest.drop_last().drop_last() =~= digits);
    reveal_with_fuel(trim_end, 3);
    assert(trim_end(rest) == digits);
    assert(headers.push(line).last() == line);
}

/// The name of a header says the same in any case.
pub proof fn law_case_of_names_does_not_matter(
    name: Seq<char>,
    other: Seq<char>,
    text: Seq<char>,
    wanted: Seq<char>,
)
    requires
        same_ignoring_case(name, other),
        !name.contains(':'),
        !other.contains(':'),
    ensures
        is_named(name + seq![':'] + text, wanted) == is_named(other + seq![':'] + text, wanted),
        value(name + seq![':'] + text) == value(other + seq![':'] + text),
{
    lemma_split_back(name, ':', text);
    lemma_split_back(other, ':', text);
}

} // verus!
