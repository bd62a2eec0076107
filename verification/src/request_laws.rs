//! What holds of request lines, targets and heads, in terms of the texts that
//! they are put together from.

use crate::header::{forwarded, has_token, is_named, joined, lists_token, value};
use crate::message_laws::{
    law_header_is_told_by_its_name, law_list_holds_its_elements, separated,
};
use crate::number::number;
use crate::protocol::{error_text, ErrorModel};
use crate::relay::client_headers;
use crate::request::{
    origin, request_line, upstream_head, wants_close, without_scheme, HeadModel, OriginModel,
};
use crate::text::{
    before, first_index, is_white_space, lemma_split_back, same_ignoring_case, trim, upper,
};
use crate::text_laws::{
    all_white, law_last_is_found, law_text_is_split_at_the_first,
    law_trailing_white_space_is_dropped,
};
use vstd::prelude::*;

verus! {

// ---------------------------------------------------------------------------
// Request lines
// ---------------------------------------------------------------------------

/// A request line of a method, a target and a version, each behind a single
/// space, and of any white space at its end, is taken apart into just these; the
/// method is brought into upper case. Without a method or a target it is no
/// request line.
pub proof fn law_request_line_with_version(
    method: Seq<char>,
    target: Seq<char>,
    version: Seq<char>,
    end: Seq<char>,
)
    requires
        !method.contains(' '),
        !target.contains(' '),
        version.len() > 0,
        !is_white_space(version.last()),
        all_white(end),
    ensures
        request_line(method + seq![' '] + (target + seq![' '] + version) + end) == if method.len()
            > 0 && target.len() > 0 {
            Some(HeadModel { method: upper(method), target, version, headers: Seq::empty() })
        } else {
            None
        },
{
    let rest = target + seq![' '] + version;
    let line = method + seq![' '] + rest;
    assert(line.last() == version.last());
    law_trailing_white_space_is_dropped(line, end);
    lemma_split_back(method, ' ', rest);
    lemma_split_back(target, ' ', version);
}

/// A request line without a version is taken for one of HTTP/1.1.
pub proof fn law_request_line_without_version(
    method: Seq<char>,
    target: Seq<char>,
    end: Seq<char>,
)
    requires
        !method.contains(' '),
        !target.contains(' '),
        target.len() > 0,
        !is_white_space(target.last()),
        all_white(end),
    ensures
        request_line(method + seq![' '] + target + end) == if method.len() > 0 {
            Some(
                HeadModel {
                    method: upper(method),
                    target,
                    version: "HTTP/1.1"@,
                    headers: Seq::empty(),
                },
            )
        } else {
            None
        },
{
    let line = method + seq![' '] + target;
    assert(line.last() == target.last());
    law_trailing_white_space_is_dropped(line, end);
    lemma_split_back(method, ' ', target);
    law_text_is_split_at_the_first(target, ' ', Seq::empty());
}

/// A line without a space between two words is no request line.
pub proof fn law_request_line_without_target(method: Seq<char>, end: Seq<char>)
    requires
        !method.contains(' '),
        method.len() > 0 ==> !is_white_space(method.last()),
        all_white(end),
    ensures
        request_line(method + end) is None,
{
    law_trailing_white_space_is_dropped(method, end);
}

// ---------------------------------------------------------------------------
// Closing
// ---------------------------------------------------------------------------

/// The client wants its connection closed if and only if it speaks HTTP/1.0 or
/// one of its headers named `Connection` or `Proxy-Connection` lists `close`.
pub proof fn law_close_is_wanted(head: HeadModel)
    ensures
        wants_close(head) <==> {
            ||| same_ignoring_case(head.version, "HTTP/1.0"@)
            ||| exists|i: int|
                0 <= i < head.headers.len() && (is_named(
                    #[trigger] head.headers[i],
                    "connection"@,
                ) || is_named(head.headers[i], "proxy-connection"@)) && has_token(
                    value(head.headers[i]),
                    "close"@,
                )
        },
{
    if lists_token(head.headers, "connection"@, "close"@) {
        let i = choose|i: int|
            0 <= i < head.headers.len() && is_named(#[trigger] head.headers[i], "connection"@)
                && has_token(value(head.headers[i]), "close"@);
        assert(is_named(head.headers[i], "connection"@));
    }
    if lists_token(head.headers, "proxy-connection"@, "close"@) {
        let i = choose|i: int|
            0 <= i < head.headers.len() && is_named(
                #[trigger] head.headers[i],
                "proxy-connection"@,
            ) && has_token(value(head.headers[i]), "close"@);
        assert(is_named(head.headers[i], "proxy-connection"@));
    }
}

/// If one header says what is to become of the connection, just the elements of
/// its list decide: with `close` among them the client wants the connection
/// closed; with `keep-alive` or anything else it does not.
pub proof fn law_connection_header_decides(
    head: HeadModel,
    a: Seq<Seq<char>>,
    name: Seq<char>,
    elements: Seq<Seq<char>>,
    b: Seq<Seq<char>>,
)
    requires
        head.headers == a + seq![name + seq![':'] + separated(elements)] + b,
        !name.contains(':'),
        same_ignoring_case(name, "connection"@) || same_ignoring_case(name, "proxy-connection"@),
        elements.len() > 0,
        forall|i: int| 0 <= i < elements.len() ==> !(#[trigger] elements[i]).contains(','),
        forall|i: int|
            0 <= i < a.len() ==> !is_named(#[trigger] a[i], "connection"@) && !is_named(
                a[i],
                "proxy-connection"@,
            ),
        forall|i: int|
            0 <= i < b.len() ==> !is_named(#[trigger] b[i], "connection"@) && !is_named(
                b[i],
                "proxy-connection"@,
            ),
    ensures
        wants_close(head) <==> {
            ||| same_ignoring_case(head.version, "HTTP/1.0"@)
            ||| exists|i: int|
                0 <= i < elements.len() && same_ignoring_case(
                    trim(#[trigger] elements[i]),
                    "close"@,
                )
        },
{
    let line = name + seq![':'] + separated(elements);
    let k = a.len() as int;
    law_close_is_wanted(head);
    law_header_is_told_by_its_name(name, separated(elements), "connection"@);
    law_header_is_told_by_its_name(name, separated(elements), "proxy-connection"@);
    law_list_holds_its_elements(elements, "close"@);
    assert(head.headers[k] == line);
    assert forall|i: int| 0 <= i < head.headers.len() && i != k implies !is_named(
        #[trigger] head.headers[i],
        "connection"@,
    ) && !is_named(head.headers[i], "proxy-connection"@) by {
        if i < k {
            assert(head.headers[i] == a[i]);
        } else {
            assert(head.headers[i] == b[i - k - 1]);
        }
    }
}

// ---------------------------------------------------------------------------
// Targets
// ---------------------------------------------------------------------------

/// The target begins with `http://`, or it is taken as it is.
pub open spec fn is_written_as(target: Seq<char>, rest: Seq<char>) -> bool {
    ||| target == "http://"@ + rest
    ||| target == rest && !"http://"@.is_prefix_of(rest)
}

proof fn lemma_scheme(target: Seq<char>, rest: Seq<char>)
    requires
        is_written_as(target, rest),
    ensures
        without_scheme(target) == rest,
{
    if target == "http://"@ + rest {
        assert(target.subrange(0, "http://"@.len() as int) =~= "http://"@);
        assert(target.skip("http://"@.len() as int) =~= rest);
    }
}

proof fn lemma_authority(authority: Seq<char>, path: Seq<char>)
    requires
        !authority.contains('/'),
        path.len() == 0 || path[0] == '/',
    ensures
        before(authority + path, '/') == authority,
        (authority + path).skip(first_index(authority + path, '/')) == path,
{
    let all = authority + path;
    if path.len() == 0 {
        assert(all =~= authority);
        law_text_is_split_at_the_first(authority, '/', Seq::empty());
    } else {
        assert(all =~= authority + seq!['/'] + path.drop_first());
        law_text_is_split_at_the_first(authority, '/', path.drop_first());
    }
    assert(all.skip(authority.len() as int) =~= path);
}

/// A target points to the host in front of the last colon of its first part, to
/// the port behind that colon, and to the path from the first slash on. A port
/// that is no decimal number of 16 bits is taken for 80.
pub proof fn law_target_with_port(
    target: Seq<char>,
    host: Seq<char>,
    port: Seq<char>,
    path: Seq<char>,
)
    requires
        is_written_as(target, host + seq![':'] + port + path),
        !host.contains('/'),
        !port.contains('/'),
        !port.contains(':'),
        path.len() == 0 || path[0] == '/',
    ensures
        origin(target) == (OriginModel {
            host,
            port: match number(port, 10, 65535) {
                Some(n) => n as u16,
                None => 80,
            },
            path,
        }),
{
    let authority = host + seq![':'] + port;
    lemma_scheme(target, authority + path);
    if authority.contains('/') {
        let i = choose|i: int| 0 <= i < authority.len() && authority[i] == '/';
        if i < host.len() {
            assert(host.contains(host[i]));
        } else if i > host.len() {
            assert(port.contains(port[i - host.len() - 1]));
        }
    }
    lemma_authority(authority, path);
    law_last_is_found(host, ':', port);
    assert(authority.take(host.len() as int) =~= host);
    assert(authority.skip((host.len() + 1) as int) =~= port);
}

/// A target that names no port points to port 80.
pub proof fn law_target_without_port(target: Seq<char>, host: Seq<char>, path: Seq<char>)
    requires
        is_written_as(target, host + path),
        !host.contains('/'),
        !host.contains(':'),
        path.len() == 0 || path[0] == '/',
    ensures
        origin(target) == (OriginModel { host, port: 80, path }),
{
    lemma_scheme(target, host + path);
    lemma_authority(host, path);
    law_last_is_found(Seq::empty(), ':', host);
}

// ---------------------------------------------------------------------------
// Heads on the wire
// ---------------------------------------------------------------------------

/// The upstream server gets this head and no other: the request line with the
/// path in place of the target, the headers that are passed on, a header that
/// asks for the connection to be closed, and an empty line.
pub proof fn law_upstream_head_in_full(
    head: HeadModel,
    authority: Seq<char>,
    path: Seq<char>,
)
    requires
        is_written_as(head.target, authority + path),
        !authority.contains('/'),
        path.len() == 0 || path[0] == '/',
    ensures
        upstream_head(head) == head.method + seq![' '] + path + seq![' '] + head.version
            + seq!['\r', '\n'] + joined(forwarded(head.headers))
            + "Connection: close\r\n\r\n"@,
{
    lemma_scheme(head.target, authority + path);
    lemma_authority(authority, path);
    reveal_strlit(" ");
    reveal_strlit("\r\n");
    reveal_strlit("Connection: close\r\n");
    reveal_strlit("Connection: close\r\n\r\n");
    assert(" "@ =~= seq![' ']);
    assert("\r\n"@ =~= seq!['\r', '\n']);
    assert("Connection: close\r\n\r\n"@ =~= "Connection: close\r\n"@ + "\r\n"@);
    assert(upstream_head(head) =~= head.method + seq![' '] + path + seq![' '] + head.version
        + seq!['\r', '\n'] + joined(forwarded(head.headers)) + ("Connection: close\r\n"@
        + "\r\n"@));
}

/// Behind the status line the client gets the headers that are passed on and an
/// empty line, and nothing else.
pub proof fn law_client_head_in_full(headers: Seq<Seq<char>>)
    ensures
        client_headers(headers) == joined(forwarded(headers)) + seq!['\r', '\n'],
{
    reveal_strlit("\r\n");
    assert("\r\n"@ =~= seq!['\r', '\n']);
}

/// How errors read: a failure as its reason, a target that was not reached with
/// the target and the reason, and each other error as a text of its own.
pub proof fn law_errors_read_as_they_should(target: Seq<char>, reason: Seq<char>)
    ensures
        error_text(ErrorModel::Io(reason)) == reason,
        error_text(ErrorModel::SocksConnect { target, reason }) == "SOCKS5 connect to "@ + (target
            + (" failed: "@ + reason)),
        error_text(ErrorModel::MalformedRequestLine) == "malformed request line"@,
        error_text(ErrorModel::InvalidChunkSize) == "invalid chunk size"@,
        error_text(ErrorModel::EmptyResponse) == "empty upstream response"@,
{
    assert(error_text(ErrorModel::SocksConnect { target, reason }) =~= "SOCKS5 connect to "@ + (
    target + (" failed: "@ + reason)));
}

} // verus!
