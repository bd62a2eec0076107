//! Requests: reading their heads, and what the heads ask for.

use crate::header::{
    body_framing, forwarded, framing, headers_list_token, joined, lists_token, push_forwarded,
    texts, BodyFraming,
};
use crate::number::{decimal, law_decimal_is_read_back, lemma_decimal, number, read_number};
use crate::protocol::{
    blank, is_blank, Action, ActionModel, ErrorModel, Event, EventModel, Peer, ProxyError,
};
use crate::text::{
    after, before, begins_with, chars_of, find, find_last, first_index, is_white_space,
    last_index, lemma_first_index, lemma_last_index, lemma_split_back, reads_ignoring_case,
    same_ignoring_case, split_once, text_of, to_upper, trim_end, trimmed_end, upper,
};
use vstd::prelude::*;
use vstd::slice::slice_subrange;
use vstd::string::StringExecFns;

verus! {

/// The head of a request. The header lines are kept as they were read, with
/// their line ends.
pub struct RequestHead {
    pub method: String,
    pub target: String,
    pub version: String,
    pub headers: Vec<String>,
}

/// The model of a `RequestHead`.
pub struct HeadModel {
    pub method: Seq<char>,
    pub target: Seq<char>,
    pub version: Seq<char>,
    pub headers: Seq<Seq<char>>,
}

impl View for RequestHead {
    type V = HeadModel;

    open spec fn view(&self) -> HeadModel {
        HeadModel {
            method: self.method@,
            target: self.target@,
            version: self.version@,
            headers: texts(self.headers@),
        }
    }
}

// ---------------------------------------------------------------------------
// The request line
// ---------------------------------------------------------------------------

/// The head, still without headers, that a request line begins. White space at
/// the end of the line is dropped; single spaces separate a method, a target
/// and a version, which is all the rest. The method is taken in upper case. A
/// missing version reads `HTTP/1.1`; a method and a target there must be.
pub open spec fn request_line(line: Seq<char>) -> Option<HeadModel> {
    let line = trim_end(line);
    let method = upper(before(line, ' '));
    let rest = after(line, ' ');
    let target = if line.contains(' ') {
        before(rest, ' ')
    } else {
        Seq::empty()
    };
    let version = if line.contains(' ') && rest.contains(' ') {
        after(rest, ' ')
    } else {
        "HTTP/1.1"@
    };
    if method.len() == 0 || target.len() == 0 {
        None
    } else {
        Some(HeadModel { method, target, version, headers: Seq::empty() })
    }
}

/// Takes a request line apart.
pub fn parse_request_line(line: &str) -> (r: Option<RequestHead>)
    ensures
        match r {
            Some(head) => request_line(line@) == Some(head@),
            None => request_line(line@) is None,
        },
{
    let chars = chars_of(line);
    let line = trimmed_end(chars.as_slice());
    match split_once(line, ' ') {
        Some((method, rest)) => {
            let end: usize = find(rest, ' ');
            let target = slice_subrange(rest, 0, end);
            assert(target@ == before(rest@, ' '));
            if method.len() == 0 || target.len() == 0 {
                return None;
            }
            let version = if end < rest.len() {
                let version = slice_subrange(rest, end + 1, rest.len());
                assert(version@ == after(rest@, ' '));
                text_of(version)
            } else {
                "HTTP/1.1".to_owned()
            };
            let head = RequestHead {
                method: text_of(to_upper(method).as_slice()),
                target: text_of(target),
                version,
                headers: Vec::new(),
            };
            assert(head@.headers == Seq::<Seq<char>>::empty());
            Some(head)
        },
        None => None,
    }
}

// ---------------------------------------------------------------------------
// The head, line by line
// ---------------------------------------------------------------------------

/// The reading of a request head.
pub enum HeadReader {
    /// The request line comes next.
    RequestLine,
    /// A header line, or the line behind the last of them, comes next.
    Headers(RequestHead),
    /// There is no further request.
    NoRequest,
    /// The head was read.
    Complete(RequestHead),
    /// The head could not be read.
    Broken(ProxyError),
}

/// The model of a `HeadReader`.
pub enum HeadReaderModel {
    RequestLine,
    Headers(HeadModel),
    NoRequest,
    Complete(HeadModel),
    Broken(ErrorModel),
}

impl View for HeadReader {
    type V = HeadReaderModel;

    open spec fn view(&self) -> HeadReaderModel {
        match self {
            HeadReader::RequestLine => HeadReaderModel::RequestLine,
            HeadReader::Headers(head) => HeadReaderModel::Headers(head@),
            HeadReader::NoRequest => HeadReaderModel::NoRequest,
            HeadReader::Complete(head) => HeadReaderModel::Complete(head@),
            HeadReader::Broken(error) => HeadReaderModel::Broken(error@),
        }
    }
}

impl HeadReaderModel {
    /// What the reader waits for.
    pub open spec fn action(self) -> ActionModel {
        match self {
            HeadReaderModel::RequestLine | HeadReaderModel::Headers(_) => ActionModel::ReadLine {
                from: Peer::Client,
            },
            _ => ActionModel::Stop,
        }
    }

    /// The reader after an event; one that is no answer changes nothing.
    pub open spec fn next(self, event: EventModel) -> HeadReaderModel {
        match (self, event) {
            (HeadReaderModel::RequestLine, EventModel::Line(line)) => if is_blank(line) {
                HeadReaderModel::NoRequest
            } else {
                match request_line(line) {
                    Some(head) => HeadReaderModel::Headers(head),
                    None => HeadReaderModel::Broken(ErrorModel::MalformedRequestLine),
                }
            },
            (HeadReaderModel::Headers(head), EventModel::Line(line)) => if is_blank(line) {
                HeadReaderModel::Complete(head)
            } else {
                HeadReaderModel::Headers(HeadModel { headers: head.headers.push(line), ..head })
            },
            (HeadReaderModel::RequestLine, EventModel::Failed(reason)) => {
                HeadReaderModel::Broken(ErrorModel::Io(reason))
            },
            (HeadReaderModel::Headers(_), EventModel::Failed(reason)) => {
                HeadReaderModel::Broken(ErrorModel::Io(reason))
            },
            _ => self,
        }
    }
}

impl HeadReader {
    /// Starts to read a head.
    pub fn start() -> (r: HeadReader)
        ensures
            r@ == HeadReaderModel::RequestLine,
    {
        HeadReader::RequestLine
    }

    /// What is to be done next.
    pub fn action(&self) -> (r: Action)
        ensures
            r@ == self@.action(),
    {
        match self {
            HeadReader::RequestLine | HeadReader::Headers(_) => Action::ReadLine {
                from: Peer::Client,
            },
            _ => Action::Stop,
        }
    }

    /// Goes on with what came of the last action.
    pub fn next(self, event: Event) -> (r: HeadReader)
        ensures
            r@ == self@.next(event@),
    {
        match (self, event) {
            (HeadReader::RequestLine, Event::Line(line)) => {
                if blank(line.as_str()) {
                    HeadReader::NoRequest
                } else {
                    match parse_request_line(line.as_str()) {
                        Some(head) => HeadReader::Headers(head),
                        None => HeadReader::Broken(ProxyError::MalformedRequestLine),
                    }
                }
            },
            (HeadReader::Headers(mut head), Event::Line(line)) => {
                if blank(line.as_str()) {
                    HeadReader::Complete(head)
                } else {
                    let ghost before = head@;
                    head.headers.push(line);
                    assert(head@.headers =~= before.headers.push(line@));
                    HeadReader::Headers(head)
                }
            },
            (HeadReader::RequestLine, Event::Failed(reason)) => HeadReader::Broken(
                ProxyError::Io(reason),
            ),
            (HeadReader::Headers(_), Event::Failed(reason)) => HeadReader::Broken(
                ProxyError::Io(reason),
            ),
            (reader, _) => reader,
        }
    }
}

// ---------------------------------------------------------------------------
// What a head asks for
// ---------------------------------------------------------------------------

/// Reads off the head how long the body of the request is.
pub fn request_body_framing(head: &RequestHead) -> (r: BodyFraming)
    ensures
        r == framing(head@.headers),
{
    body_framing(head.headers.as_slice())
}

/// The client wants the connection to be closed after the response.
pub open spec fn wants_close(head: HeadModel) -> bool {
    ||| same_ignoring_case(head.version, "HTTP/1.0"@)
    ||| lists_token(head.headers, "connection"@, "close"@)
    ||| lists_token(head.headers, "proxy-connection"@, "close"@)
}

/// Tells whether the client wants the connection to be closed.
pub fn client_requested_close(head: &RequestHead) -> (r: bool)
    ensures
        r == wants_close(head@),
{
    let version = chars_of(head.version.as_str());
    reads_ignoring_case(version.as_slice(), "HTTP/1.0") || headers_list_token(
        head.headers.as_slice(),
        "connection",
        "close",
    ) || headers_list_token(head.headers.as_slice(), "proxy-connection", "close")
}

/// Where a request goes: a port of a host, and a path on it.
pub struct Origin {
    pub host: String,
    pub port: u16,
    pub path: String,
}

/// The model of an `Origin`.
pub struct OriginModel {
    pub host: Seq<char>,
    pub port: u16,
    pub path: Seq<char>,
}

impl View for Origin {
    type V = OriginModel;

    open spec fn view(&self) -> OriginModel {
        OriginModel { host: self.host@, port: self.port, path: self.path@ }
    }
}

/// A target without the scheme in front of it.
pub open spec fn without_scheme(target: Seq<char>) -> Seq<char> {
    if "http://"@.is_prefix_of(target) {
        target.skip("http://"@.len() as int)
    } else {
        target
    }
}

/// Where a target points to. Behind the scheme, the path begins at the first
/// slash, and is empty without one. A port follows the last colon in front of
/// the path; one that is missing or no number of 16 bits is 80.
pub open spec fn origin(target: Seq<char>) -> OriginModel {
    let rest = without_scheme(target);
    let host_port = before(rest, '/');
    let path = rest.skip(first_index(rest, '/'));
    let colon = last_index(host_port, ':');
    if colon >= 0 {
        OriginModel {
            host: host_port.take(colon),
            port: match number(host_port.skip(colon + 1), 10, u16::MAX as nat) {
                Some(n) => n as u16,
                None => 80,
            },
            path,
        }
    } else {
        OriginModel { host: host_port, port: 80, path }
    }
}

/// Finds out where a target points to.
pub fn find_origin(target: &str) -> (r: Origin)
    ensures
        r@ == origin(target@),
{
    let chars = chars_of(target);
    let scheme = chars_of("http://");
    let rest = if begins_with(chars.as_slice(), "http://") {
        let rest = slice_subrange(chars.as_slice(), scheme.len(), chars.len());
        assert(rest@ == chars@.skip(scheme@.len() as int));
        rest
    } else {
        chars.as_slice()
    };
    let slash: usize = find(rest, '/');
    let host_port = slice_subrange(rest, 0, slash);
    assert(host_port@ == before(rest@, '/'));
    let path = slice_subrange(rest, slash, rest.len());
    assert(path@ == rest@.skip(slash as int));
    match find_last(host_port, ':') {
        Some(colon) => {
            let host = slice_subrange(host_port, 0, colon);
            let port_text = slice_subrange(host_port, colon + 1, host_port.len());
            assert(host@ == host_port@.take(colon as int));
            assert(port_text@ == host_port@.skip(colon + 1));
            let port: u16 = match read_number(port_text, 10, 65535) {
                Some(n) => n as u16,
                None => 80,
            };
            Origin { host: text_of(host), port, path: text_of(path) }
        },
        None => Origin { host: text_of(host_port), port: 80, path: text_of(path) },
    }
}

/// The head that is sent to the upstream server: the request line with the
/// path in place of the target, the headers that are passed on, and a header
/// that asks for the connection to be closed after the response.
pub open spec fn upstream_head(head: HeadModel) -> Seq<char> {
    head.method + " "@ + origin(head.target).path + " "@ + head.version + "\r\n"@ + joined(
        forwarded(head.headers),
    ) + "Connection: close\r\n"@ + "\r\n"@
}

/// Writes the head that is sent to the upstream server.
pub fn write_upstream_head(head: &RequestHead) -> (r: String)
    ensures
        r@ == upstream_head(head@),
{
    let origin = find_origin(head.target.as_str());
    let mut r = head.method.clone();
    r.append(" ");
    r.append(origin.path.as_str());
    r.append(" ");
    r.append(head.version.as_str());
    r.append("\r\n");
    push_forwarded(&mut r, head.headers.as_slice());
    r.append("Connection: close\r\n");
    r.append("\r\n");
    r
}

// ---------------------------------------------------------------------------
// Laws
// ---------------------------------------------------------------------------

/// Behind the scheme a target reads as it is.
proof fn lemma_without_scheme(rest: Seq<char>)
    ensures
        without_scheme("http://"@ + rest) == rest,
{
    let target = "http://"@ + rest;
    assert(target.subrange(0, "http://"@.len() as int) =~= "http://"@);
    assert(target.skip("http://"@.len() as int) =~= rest);
}

/// The first slash in front of a path ends the host and the port.
proof fn lemma_path_is_cut_off(host_port: Seq<char>, path: Seq<char>)
    requires
        !host_port.contains('/'),
        path.len() == 0 || path[0] == '/',
    ensures
        first_index(host_port + path, '/') == host_port.len(),
        before(host_port + path, '/') == host_port,
        (host_port + path).skip(first_index(host_port + path, '/')) == path,
{
    let all = host_port + path;
    assert forall|j: int| 0 <= j < host_port.len() implies all[j] != '/' by {
        assert(host_port.contains(host_port[j]));
    }
    lemma_first_index(all, '/', host_port.len() as int);
    assert(all.take(host_port.len() as int) =~= host_port);
    assert(all.skip(host_port.len() as int) =~= path);
}

/// A target that names a host, a port and a path points to just these, and so
/// the path takes the place of the target in the request line.
pub proof fn law_absolute_target_with_port(host: Seq<char>, port: u16, path: Seq<char>)
    requires
        !host.contains('/'),
        path.len() == 0 || path[0] == '/',
    ensures
        origin("http://"@ + (host + seq![':'] + decimal(port as nat) + path)) == (OriginModel {
            host,
            port,
            path,
        }),
{
    let digits = decimal(port as nat);
    let host_port = host + seq![':'] + digits;
    lemma_decimal(port as nat);
    law_decimal_is_read_back(port as nat, u16::MAX as nat);
    lemma_without_scheme(host_port + path);
    if host_port.contains('/') {
        let i = choose|i: int| 0 <= i < host_port.len() && host_port[i] == '/';
        if i < host.len() {
            assert(host[i] == '/');
        } else if i > host.len() {
            assert(digits[i - host.len() - 1] == '/');
        }
    }
    lemma_path_is_cut_off(host_port, path);
    assert forall|j: int| host.len() < j < host_port.len() implies host_port[j] != ':' by {
        assert(host_port[j] == digits[j - host.len() - 1]);
    }
    lemma_last_index(host_port, ':', host.len() as int);
    assert(host_port.take(host.len() as int) =~= host);
    assert(host_port.skip((host.len() + 1) as int) =~= digits);
}

/// A target that names a host and a path, but no port, points to port 80.
pub proof fn law_absolute_target_without_port(host: Seq<char>, path: Seq<char>)
    requires
        !host.contains('/'),
        !host.contains(':'),
        path.len() == 0 || path[0] == '/',
    ensures
        origin("http://"@ + (host + path)) == (OriginModel { host, port: 80, path }),
{
    lemma_without_scheme(host + path);
    lemma_path_is_cut_off(host, path);
    assert forall|j: int| 0 <= j < host.len() implies host[j] != ':' by {
        assert(host.contains(host[j]));
    }
    lemma_last_index(host, ':', -1);
}

/// The head that is sent to the upstream server begins with the request line,
/// in which the path has taken the place of the absolute target, whatever host
/// and port stand in front of it.
pub proof fn law_request_line_is_rewritten(head: HeadModel, authority: Seq<char>, path: Seq<char>)
    requires
        head.target == "http://"@ + (authority + path),
        !authority.contains('/'),
        path.len() == 0 || path[0] == '/',
    ensures
        (head.method + " "@ + path + " "@ + head.version + "\r\n"@).is_prefix_of(
            upstream_head(head),
        ),
{
    lemma_without_scheme(authority + path);
    lemma_path_is_cut_off(authority, path);
    assert(origin(head.target).path == path);
    let line = head.method + " "@ + path + " "@ + head.version + "\r\n"@;
    assert(upstream_head(head).subrange(0, line.len() as int) =~= line);
}

/// A request line is taken apart into what it was put together from; only the
/// method is brought into upper case.
pub proof fn law_request_line_is_taken_apart(
    method: Seq<char>,
    target: Seq<char>,
    version: Seq<char>,
)
    requires
        method.len() > 0,
        target.len() > 0,
        version.len() > 0,
        !method.contains(' '),
        !target.contains(' '),
        !is_white_space(version.last()),
    ensures
        request_line(method + seq![' '] + (target + seq![' '] + version) + "\r\n"@) == Some(
            HeadModel { method: upper(method), target, version, headers: Seq::empty() },
        ),
{
    let rest = target + seq![' '] + version;
    let line = method + seq![' '] + rest;
    let whole = line + "\r\n"@;
    reveal_strlit("\r\n");
    assert(line.last() == version.last());
    assert(whole.last() == '\n');
    assert(whole.drop_last().last() == '\r');
    assert(whole.drop_last().drop_last() =~= line);
    reveal_with_fuel(trim_end, 3);
    assert(trim_end(whole) == line);
    lemma_split_back(method, ' ', rest);
    lemma_split_back(target, ' ', version);
}

} // verus!
