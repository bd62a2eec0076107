//! What holds of header lines, status lines and the lines in front of chunks,
//! in terms of the texts that they are put together from.

use crate::body::chunk_size;
use crate::header::{
    content_length, forwarded, framing, has_token, is_forwarded, is_hop_by_hop, is_named, joined,
    law_headers_are_passed_on_in_order, lists_token, texts, value, BodyFraming,
};
use crate::number::{decimal, law_decimal_is_read_back, lemma_decimal, number};
use crate::protocol::is_blank;
use crate::status::{ends_by_itself, has_body, status, word_len};
use crate::text::{
    is_piece, is_white_space, lemma_split_back, lower, lower_char, same_ignoring_case, trim,
    trim_start,
};
use crate::text_laws::{
    all_white, is_bare, law_leading_white_space_is_dropped,
    law_surrounding_white_space_is_dropped, law_text_is_split_at_the_first,
};
use vstd::prelude::*;

verus! {

// ---------------------------------------------------------------------------
// One header line
// ---------------------------------------------------------------------------

/// A header line is told by what stands in front of its first colon, in any
/// case; its value is what stands behind. A line without a colon has no name.
pub proof fn law_header_is_told_by_its_name(
    name: Seq<char>,
    text: Seq<char>,
    wanted: Seq<char>,
)
    requires
        !name.contains(':'),
    ensures
        is_named(name + seq![':'] + text, wanted) <==> same_ignoring_case(name, wanted),
        value(name + seq![':'] + text) == text,
        !is_named(name, wanted),
{
    lemma_split_back(name, ':', text);
}

/// Whether a text with a colon in it begins with a word and a colon.
proof fn lemma_begins_with_word(word: Seq<char>, name: Seq<char>, text: Seq<char>)
    requires
        !word.contains(':'),
        !name.contains(':'),
    ensures
        (word + seq![':']).is_prefix_of(name + seq![':'] + text) <==> name == word,
        !(word + seq![':']).is_prefix_of(name),
{
    let line = name + seq![':'] + text;
    let prefix = word + seq![':'];
    if prefix.is_prefix_of(line) {
        assert(prefix[word.len() as int] == ':');
        assert(line[word.len() as int] == ':');
        assert(line[name.len() as int] == ':');
        if word.len() < name.len() {
            assert(name.contains(name[word.len() as int]));
        } else if name.len() < word.len() {
            assert(prefix[name.len() as int] == line[name.len() as int]);
            assert(word.contains(word[name.len() as int]));
        } else {
            assert forall|i: int| 0 <= i < name.len() implies name[i] == word[i] by {
                assert(prefix[i] == line[i]);
            }
            assert(name =~= word);
        }
    }
    if name == word {
        assert(line.subrange(0, prefix.len() as int) =~= prefix);
    }
    if prefix.is_prefix_of(name) {
        assert(name[word.len() as int] == prefix[word.len() as int]);
        assert(name.contains(name[word.len() as int]));
    }
}

/// The texts of headers are those of their lines, one for each and in order.
pub proof fn law_texts_of_headers(lines: Seq<String>)
    ensures
        texts(lines).len() == lines.len(),
        forall|i: int| 0 <= i < lines.len() ==> #[trigger] texts(lines)[i] == lines[i]@,
{
}

/// What is said of a header line does not depend on what stands behind its name.
proof fn lemma_begins_within_name(prefix: Seq<char>, name: Seq<char>, text: Seq<char>)
    requires
        !prefix.contains(':'),
    ensures
        prefix.is_prefix_of(name + seq![':'] + text) <==> prefix.is_prefix_of(name),
{
    let line = name + seq![':'] + text;
    if prefix.is_prefix_of(line) {
        if prefix.len() > name.len() {
            assert(prefix[name.len() as int] == line[name.len() as int]);
            assert(prefix.contains(prefix[name.len() as int]));
        } else {
            assert(name.subrange(0, prefix.len() as int) =~= prefix) by {
                assert forall|i: int| 0 <= i < prefix.len() implies name[i] == prefix[i] by {
                    assert(line[i] == prefix[i]);
                }
            }
        }
    }
    if prefix.is_prefix_of(name) {
        assert forall|i: int| 0 <= i < prefix.len() implies line[i] == prefix[i] by {
            assert(name[i] == prefix[i]);
        }
        assert(line.subrange(0, prefix.len() as int) =~= prefix);
    }
}

/// The names in question, and the same with a colon behind them.
proof fn lemma_names_with_colons()
    ensures
        "connection:"@ == "connection"@ + seq![':'],
        "keep-alive:"@ == "keep-alive"@ + seq![':'],
        "te:"@ == "te"@ + seq![':'],
        "trailer:"@ == "trailer"@ + seq![':'],
        "upgrade:"@ == "upgrade"@ + seq![':'],
        !"connection"@.contains(':'),
        !"keep-alive"@.contains(':'),
        !"te"@.contains(':'),
        !"trailer"@.contains(':'),
        !"upgrade"@.contains(':'),
        !"proxy-"@.contains(':'),
{
    reveal_strlit("connection:");
    reveal_strlit("connection");
    reveal_strlit("keep-alive:");
    reveal_strlit("keep-alive");
    reveal_strlit("te:");
    reveal_strlit("te");
    reveal_strlit("trailer:");
    reveal_strlit("trailer");
    reveal_strlit("upgrade:");
    reveal_strlit("upgrade");
    reveal_strlit("proxy-");
    assert("connection:"@ =~= "connection"@ + seq![':']);
    assert("keep-alive:"@ =~= "keep-alive"@ + seq![':']);
    assert("te:"@ =~= "te"@ + seq![':']);
    assert("trailer:"@ =~= "trailer"@ + seq![':']);
    assert("upgrade:"@ =~= "upgrade"@ + seq![':']);
}

/// Of the lines `name: text`, those and only those concern one connection whose
/// name is one of five or begins with `proxy-`; of the lines without a colon,
/// those that begin with `proxy-`.
pub proof fn law_connection_headers_by_name(name: Seq<char>, text: Seq<char>)
    requires
        !name.contains(':'),
    ensures
        is_hop_by_hop(name + seq![':'] + text) <==> {
            ||| name == "connection"@
            ||| name == "keep-alive"@
            ||| name == "te"@
            ||| name == "trailer"@
            ||| name == "upgrade"@
            ||| "proxy-"@.is_prefix_of(name)
        },
        is_hop_by_hop(name) <==> "proxy-"@.is_prefix_of(name),
{
    lemma_names_with_colons();
    lemma_begins_with_word("connection"@, name, text);
    lemma_begins_with_word("keep-alive"@, name, text);
    lemma_begins_with_word("te"@, name, text);
    lemma_begins_with_word("trailer"@, name, text);
    lemma_begins_with_word("upgrade"@, name, text);
    lemma_begins_within_name("proxy-"@, name, text);
}

/// A name keeps its colons when it is brought into lower case.
proof fn lemma_lower_keeps_colons(name: Seq<char>, text: Seq<char>)
    requires
        !name.contains(':'),
    ensures
        !lower(name).contains(':'),
        lower(name + seq![':'] + text) == lower(name) + seq![':'] + lower(text),
{
    if lower(name).contains(':') {
        let i = choose|i: int| 0 <= i < lower(name).len() && lower(name)[i] == ':';
        assert(lower_char(name[i]) == ':');
        assert(name[i] == ':');
    }
    assert(lower(name + seq![':'] + text) =~= lower(name) + seq![':'] + lower(text));
}

/// A header line is passed on if and only if its name, in lower case, is neither
/// `connection`, `keep-alive`, `te`, `trailer` nor `upgrade` and does not begin
/// with `proxy-`. All other headers, whatever they are, reach the other end.
pub proof fn law_headers_are_passed_on_by_name(name: Seq<char>, text: Seq<char>)
    requires
        !name.contains(':'),
    ensures
        is_forwarded(name + seq![':'] + text) <==> {
            &&& lower(name) != "connection"@
            &&& lower(name) != "keep-alive"@
            &&& lower(name) != "te"@
            &&& lower(name) != "trailer"@
            &&& lower(name) != "upgrade"@
            &&& !"proxy-"@.is_prefix_of(lower(name))
        },
        is_forwarded(name) <==> !"proxy-"@.is_prefix_of(lower(name)),
{
    lemma_lower_keeps_colons(name, text);
    law_connection_headers_by_name(lower(name), lower(text));
}

/// Of the headers of a message, each is passed on or dropped by itself, and those
/// that are passed on follow one another as they are.
pub proof fn law_each_header_is_passed_on_by_itself(
    a: Seq<Seq<char>>,
    line: Seq<char>,
    b: Seq<Seq<char>>,
)
    ensures
        forwarded(Seq::<Seq<char>>::empty()) == Seq::<Seq<char>>::empty(),
        forwarded(a + seq![line] + b) == forwarded(a) + (if is_forwarded(line) {
            seq![line]
        } else {
            Seq::empty()
        }) + forwarded(b),
        joined(Seq::<Seq<char>>::empty()) == Seq::<char>::empty(),
        joined(a + seq![line] + b) == joined(a) + line + joined(b),
{
    reveal(Seq::filter);
    law_headers_are_passed_on_in_order(a + seq![line], b);
    law_headers_are_passed_on_in_order(a, seq![line]);
    assert(seq![line].drop_last().len() == 0);
    assert(seq![line].drop_last() =~= Seq::empty());
    assert(forwarded(seq![line].drop_last()).len() == 0);
    assert(forwarded(seq![line]) =~= if is_forwarded(line) {
        seq![line]
    } else {
        Seq::empty()
    });
    lemma_joined_concat(a + seq![line], b);
    assert((a + seq![line]).drop_last() =~= a);
    assert((a + seq![line]).last() == line);
}

proof fn lemma_joined_concat(a: Seq<Seq<char>>, b: Seq<Seq<char>>)
    ensures
        joined(a + b) == joined(a) + joined(b),
    decreases b.len(),
{
    if b.len() == 0 {
        assert(a + b =~= a);
        assert(joined(a) + joined(b) =~= joined(a));
    } else {
        lemma_joined_concat(a, b.drop_last());
        assert((a + b).drop_last() =~= a + b.drop_last());
        assert(joined(a + b) =~= joined(a) + joined(b));
    }
}

// ---------------------------------------------------------------------------
// Lists
// ---------------------------------------------------------------------------

/// The elements, with a comma between each two of them.
pub open spec fn separated(elements: Seq<Seq<char>>) -> Seq<char>
    decreases elements.len(),
{
    if elements.len() == 0 {
        Seq::empty()
    } else if elements.len() == 1 {
        elements[0]
    } else {
        elements[0] + seq![','] + separated(elements.drop_first())
    }
}

proof fn lemma_single_element(element: Seq<char>, token: Seq<char>)
    requires
        !element.contains(','),
    ensures
        has_token(element, token) <==> same_ignoring_case(trim(element), token),
{
    assert forall|j: int| 0 <= j < element.len() implies element[j] != ',' by {
        assert(element.contains(element[j]));
    }
    assert(element.subrange(0, element.len() as int) =~= element);
    if same_ignoring_case(trim(element), token) {
        assert(is_piece(element, ',', 0, element.len() as int));
    }
    if has_token(element, token) {
        let (a, b) = choose|a: int, b: int| #[trigger]
            is_piece(element, ',', a, b) && same_ignoring_case(
                trim(element.subrange(a, b)),
                token,
            );
        assert(a == 0 && b == element.len());
    }
}

proof fn lemma_first_element(element: Seq<char>, rest: Seq<char>, token: Seq<char>)
    requires
        !element.contains(','),
    ensures
        has_token(element + seq![','] + rest, token) <==> same_ignoring_case(
            trim(element),
            token,
        ) || has_token(rest, token),
{
    let all = element + seq![','] + rest;
    let k = element.len() as int;
    assert forall|j: int| 0 <= j < k implies all[j] != ',' by {
        assert(element.contains(element[j]));
    }
    assert(all[k] == ',');
    assert(all.subrange(0, k) =~= element);
    if same_ignoring_case(trim(element), token) {
        assert(is_piece(all, ',', 0, k));
    }
    if has_token(rest, token) {
        let (a, b) = choose|a: int, b: int| #[trigger]
            is_piece(rest, ',', a, b) && same_ignoring_case(trim(rest.subrange(a, b)), token);
        assert(is_piece(all, ',', a + k + 1, b + k + 1)) by {
            if a > 0 {
                assert(all[a + k] == rest[a - 1]);
            }
            if b < rest.len() {
                assert(all[b + k + 1] == rest[b]);
            }
            assert forall|j: int| a + k + 1 <= j < b + k + 1 implies all[j] != ',' by {
                assert(all[j] == rest[j - k - 1]);
            }
        }
        assert(all.subrange(a + k + 1, b + k + 1) =~= rest.subrange(a, b));
    }
    if has_token(all, token) {
        let (a, b) = choose|a: int, b: int| #[trigger]
            is_piece(all, ',', a, b) && same_ignoring_case(trim(all.subrange(a, b)), token);
        if a <= k {
            if a > 0 {
                assert(all[a - 1] == ',');
            }
            assert(a == 0);
            if b > k {
                assert(all[k] != ',');
            }
            assert(b == k);
        } else {
            assert(is_piece(rest, ',', a - k - 1, b - k - 1)) by {
                if a > k + 1 {
                    assert(rest[a - k - 2] == all[a - 1]);
                }
                if b < all.len() {
                    assert(rest[b - k - 1] == all[b]);
                }
                assert forall|j: int| a - k - 1 <= j < b - k - 1 implies rest[j] != ',' by {
                    assert(rest[j] == all[j + k + 1]);
                }
            }
            assert(all.subrange(a, b) =~= rest.subrange(a - k - 1, b - k - 1));
        }
    }
}

/// A comma-separated list holds a token if and only if one of its elements is
/// the token, in any case and with any white space around it.
pub proof fn law_list_holds_its_elements(elements: Seq<Seq<char>>, token: Seq<char>)
    requires
        elements.len() > 0,
        forall|i: int| 0 <= i < elements.len() ==> !(#[trigger] elements[i]).contains(','),
    ensures
        has_token(separated(elements), token) <==> exists|i: int|
            0 <= i < elements.len() && same_ignoring_case(trim(#[trigger] elements[i]), token),
    decreases elements.len(),
{
    let first = elements[0];
    if elements.len() == 1 {
        lemma_single_element(first, token);
    } else {
        let rest = elements.drop_first();
        assert forall|i: int| 0 <= i < rest.len() implies !(#[trigger] rest[i]).contains(',') by {
            assert(rest[i] == elements[i + 1]);
        }
        law_list_holds_its_elements(rest, token);
        lemma_first_element(first, separated(rest), token);
        if has_token(separated(rest), token) {
            let i = choose|i: int|
                0 <= i < rest.len() && same_ignoring_case(trim(#[trigger] rest[i]), token);
            assert(elements[i + 1] == rest[i]);
        }
        if exists|i: int|
            0 <= i < elements.len() && same_ignoring_case(trim(#[trigger] elements[i]), token) {
            let i = choose|i: int|
                0 <= i < elements.len() && same_ignoring_case(trim(#[trigger] elements[i]), token);
            if i > 0 {
                assert(rest[i - 1] == elements[i]);
            }
        }
    }
}

/// Some header has the name and lists the token if and only if the one that is
/// looked at does, or one in front of it or behind it.
pub proof fn law_each_header_lists_its_own_tokens(
    a: Seq<Seq<char>>,
    line: Seq<char>,
    b: Seq<Seq<char>>,
    name: Seq<char>,
    token: Seq<char>,
)
    ensures
        !lists_token(Seq::empty(), name, token),
        lists_token(a + seq![line] + b, name, token) <==> {
            ||| lists_token(a, name, token)
            ||| is_named(line, name) && has_token(value(line), token)
            ||| lists_token(b, name, token)
        },
{
    let all = a + seq![line] + b;
    let k = a.len() as int;
    assert(all[k] == line);
    assert forall|i: int| 0 <= i < a.len() implies #[trigger] a[i] == all[i] by {}
    assert forall|i: int| 0 <= i < b.len() implies #[trigger] b[i] == all[i + k + 1] by {}
    if lists_token(a, name, token) {
        let i = choose|i: int|
            0 <= i < a.len() && is_named(#[trigger] a[i], name) && has_token(value(a[i]), token);
        assert(is_named(all[i], name));
    }
    if lists_token(b, name, token) {
        let i = choose|i: int|
            0 <= i < b.len() && is_named(#[trigger] b[i], name) && has_token(value(b[i]), token);
        assert(is_named(all[i + k + 1], name));
    }
    if lists_token(all, name, token) {
        let i = choose|i: int|
            0 <= i < all.len() && is_named(#[trigger] all[i], name) && has_token(
                value(all[i]),
                token,
            );
        if i < k {
            assert(is_named(a[i], name));
        } else if i > k {
            assert(is_named(b[i - k - 1], name));
        }
    }
}

// ---------------------------------------------------------------------------
// The extent of a body
// ---------------------------------------------------------------------------

/// The last `Content-Length`, in any case, announces the length of a body,
/// whatever stands in front of it and whatever other headers follow. Without one,
/// or with one that is no number of 64 bits, no length is announced.
pub proof fn law_last_content_length_counts(
    a: Seq<Seq<char>>,
    name: Seq<char>,
    text: Seq<char>,
    b: Seq<Seq<char>>,
)
    requires
        !name.contains(':'),
        same_ignoring_case(name, "content-length"@),
        forall|i: int| 0 <= i < b.len() ==> !is_named(#[trigger] b[i], "content-length"@),
    ensures
        content_length(a + seq![name + seq![':'] + text] + b) == match number(
            trim(text),
            10,
            0xffff_ffff_ffff_ffff,
        ) {
            Some(n) => Some(n as u64),
            None => None,
        },
        content_length(b) is None,
    decreases b.len(),
{
    let line = name + seq![':'] + text;
    let all = a + seq![line] + b;
    law_header_is_told_by_its_name(name, text, "content-length"@);
    if b.len() == 0 {
        assert(all.last() == line);
    } else {
        let init = b.drop_last();
        assert(all.last() == b[b.len() - 1]);
        assert(all.drop_last() =~= a + seq![line] + init);
        assert forall|i: int| 0 <= i < init.len() implies !is_named(
            #[trigger] init[i],
            "content-length"@,
        ) by {
            assert(init[i] == b[i]);
        }
        law_last_content_length_counts(a, name, text, init);
    }
}

/// A length that was written out in decimal is the one that is announced, with
/// any white space around it and any other headers around its own.
pub proof fn law_written_length_is_announced(
    a: Seq<Seq<char>>,
    name: Seq<char>,
    left: Seq<char>,
    n: u64,
    right: Seq<char>,
    b: Seq<Seq<char>>,
)
    requires
        !name.contains(':'),
        same_ignoring_case(name, "content-length"@),
        all_white(left),
        all_white(right),
        forall|i: int| 0 <= i < b.len() ==> !is_named(#[trigger] b[i], "content-length"@),
    ensures
        framing(
            a + seq![name + seq![':'] + (left + decimal(n as nat) + right)] + b,
        ).content_length == Some(n),
        framing(b).content_length is None,
{
    let digits = decimal(n as nat);
    law_last_content_length_counts(a, name, left + digits + right, b);
    lemma_decimal(n as nat);
    law_decimal_is_read_back(n as nat, u64::MAX as nat);
    assert('0' <= digits[0] <= '9');
    assert('0' <= digits[digits.len() - 1] <= '9');
    law_surrounding_white_space_is_dropped(left, digits, right);
}

/// A body comes in chunks if and only if some header named `Transfer-Encoding`,
/// in any case, lists `chunked`.
pub proof fn law_chunks_are_announced(headers: Seq<Seq<char>>)
    ensures
        framing(headers).chunked <==> exists|i: int|
            0 <= i < headers.len() && is_named(#[trigger] headers[i], "transfer-encoding"@)
                && has_token(value(headers[i]), "chunked"@),
        framing(headers).content_length == content_length(headers),
{
}

/// In front of a chunk stands its size in hexadecimal, with white space around
/// it, and behind a semicolon anything may follow.
pub proof fn law_chunk_size_is_read(
    left: Seq<char>,
    size: Seq<char>,
    right: Seq<char>,
    extension: Seq<char>,
)
    requires
        all_white(left),
        all_white(right),
        is_bare(size),
        !size.contains(';'),
    ensures
        chunk_size(left + size + right) == number(size, 16, 0xffff_ffff_ffff_ffff),
        chunk_size(left + size + right + seq![';'] + extension) == number(
            size,
            16,
            0xffff_ffff_ffff_ffff,
        ),
{
    let text = left + size + right;
    if text.contains(';') {
        let i = choose|i: int| 0 <= i < text.len() && text[i] == ';';
        if i < left.len() {
            assert(is_white_space(left[i]));
        } else if i < left.len() + size.len() {
            assert(size.contains(size[i - left.len()]));
        } else {
            assert(is_white_space(right[i - left.len() - size.len()]));
        }
    }
    law_text_is_split_at_the_first(text, ';', extension);
    law_surrounding_white_space_is_dropped(left, size, right);
}

/// A blank line holds a line feed, a carriage return and a line feed, or
/// nothing.
pub proof fn law_blank_lines(line: Seq<char>)
    ensures
        is_blank(line) <==> {
            ||| line.len() == 0
            ||| line.len() == 1 && line[0] as int == 10
            ||| line.len() == 2 && line[0] as int == 13 && line[1] as int == 10
        },
{
    reveal_strlit("\r\n");
    reveal_strlit("\n");
    if line.len() == 1 && line[0] as int == 10 {
        assert(line =~= "\n"@);
    }
    if line.len() == 2 && line[0] as int == 13 && line[1] as int == 10 {
        assert(line =~= "\r\n"@);
    }
}

// ---------------------------------------------------------------------------
// Status lines
// ---------------------------------------------------------------------------

/// The text holds no white space.
pub open spec fn no_white(s: Seq<char>) -> bool {
    forall|i: int| 0 <= i < s.len() ==> !is_white_space(#[trigger] s[i])
}

proof fn lemma_word(word: Seq<char>, rest: Seq<char>)
    requires
        no_white(word),
        rest.len() == 0 || is_white_space(rest[0]),
    ensures
        word_len(word + rest) == word.len(),
    decreases word.len(),
{
    let all = word + rest;
    if word.len() == 0 {
        assert(all =~= rest);
    } else {
        let tail = word.drop_first();
        assert(all.drop_first() =~= tail + rest);
        assert(!is_white_space(word[0]));
        assert forall|i: int| 0 <= i < tail.len() implies !is_white_space(#[trigger] tail[i]) by {
            assert(tail[i] == word[i + 1]);
        }
        lemma_word(tail, rest);
    }
}

/// The status code is the second word of a status line, however much white space
/// stands around the words: a decimal number of 16 bits. A line of fewer than two
/// words has none.
pub proof fn law_status_code_is_the_second_word(
    lead: Seq<char>,
    first: Seq<char>,
    gap: Seq<char>,
    second: Seq<char>,
    rest: Seq<char>,
)
    requires
        all_white(lead),
        first.len() > 0,
        no_white(first),
        gap.len() > 0,
        all_white(gap),
        second.len() > 0,
        no_white(second),
        rest.len() == 0 || is_white_space(rest[0]),
    ensures
        status(lead + (first + (gap + (second + rest)))) == match number(second, 10, 65535) {
            Some(n) => Some(n as u16),
            None => None,
        },
        status(lead + (first + gap)) is None,
        status(lead + first) is None,
        status(lead) is None,
{
    let tail = second + rest;
    let middle = gap + tail;
    let line = first + middle;
    assert(!is_white_space(first[0]));
    assert(!is_white_space(second[0]));
    assert(is_white_space(gap[0]));
    law_leading_white_space_is_dropped(lead, line);
    lemma_word(first, middle);
    assert(line.skip(first.len() as int) =~= middle);
    law_leading_white_space_is_dropped(gap, tail);
    lemma_word(second, rest);
    assert(tail.take(second.len() as int) =~= second);

    let short = first + gap;
    law_leading_white_space_is_dropped(lead, short);
    lemma_word(first, gap);
    assert(short.skip(first.len() as int) =~= gap);
    assert(gap + Seq::empty() =~= gap);
    law_leading_white_space_is_dropped(gap, Seq::empty());

    let none = Seq::<char>::empty();
    law_leading_white_space_is_dropped(lead, first);
    lemma_word(first, none);
    assert(first + none =~= first);
    assert(first.skip(first.len() as int) =~= none);
    assert(trim_start(none) == none);

    assert(lead + none =~= lead);
    law_leading_white_space_is_dropped(lead, none);
    lemma_word(none, none);
    assert(none + none =~= none);
    assert(none.skip(0) =~= none);
}

/// A response has a body if and only if the request was no `HEAD` request and
/// the status code is not between 100 and 199, nor 204, nor 304. One without a
/// status code that can be read has a body, too.
pub proof fn law_responses_with_a_body(
    method: Seq<char>,
    version: Seq<char>,
    code: u16,
    reason: Seq<char>,
    other: Seq<char>,
)
    requires
        version.len() > 0,
        no_white(version),
        reason.len() == 0 || is_white_space(reason[0]),
        status(other) is None,
    ensures
        has_body(method, version + (seq![' '] + (decimal(code as nat) + reason))) <==> {
            &&& !same_ignoring_case(method, "HEAD"@)
            &&& code < 100 || code > 199
            &&& code != 204
            &&& code != 304
        },
        has_body(method, other) <==> !same_ignoring_case(method, "HEAD"@),
{
    let digits = decimal(code as nat);
    let gap = seq![' '];
    let none = Seq::<char>::empty();
    lemma_decimal(code as nat);
    law_decimal_is_read_back(code as nat, 65535);
    assert forall|i: int| 0 <= i < digits.len() implies !is_white_space(#[trigger] digits[i]) by {
        assert('0' <= digits[i] <= '9');
    }
    assert(is_white_space(gap[0]));
    law_status_code_is_the_second_word(none, version, gap, digits, reason);
    let line = version + (gap + (digits + reason));
    assert(none + line =~= line);
}

/// The client can tell where a response ends if and only if the response has no
/// body, comes in chunks or announces its length.
pub proof fn law_responses_that_end_by_themselves(
    method: Seq<char>,
    status_line: Seq<char>,
    length: Option<u64>,
    n: u64,
    chunked: bool,
)
    ensures
        !has_body(method, status_line) ==> ends_by_itself(
            method,
            status_line,
            BodyFraming { content_length: length, chunked },
        ),
        ends_by_itself(
            method,
            status_line,
            BodyFraming { content_length: length, chunked: true },
        ),
        ends_by_itself(method, status_line, BodyFraming { content_length: Some(n), chunked }),
        has_body(method, status_line) ==> !ends_by_itself(
            method,
            status_line,
            BodyFraming { content_length: None, chunked: false },
        ),
{
}

} // verus!
