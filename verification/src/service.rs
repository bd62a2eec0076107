//! What a connection does for a request, step by step: which lines are read,
//! what is written where, and how it ends.

use crate::body::{chunk_size, BodyModel, BodyStateModel};
use crate::exchange::{after_body, HttpModel, HttpStateModel};
use crate::header::{forwarded, framing, joined, BodyFraming};
use crate::protocol::{
    answers, is_blank, ActionModel, ConnectOutcomeModel, ErrorModel, EventModel, Peer,
    ProxyOutcomeModel,
};
use crate::relay::{RelayModel, RelayStateModel};
use crate::request::{origin, request_line, wants_close, HeadModel, HeadReaderModel};
use crate::request_laws::{
    is_written_as, law_client_head_in_full, law_request_line_with_version,
    law_upstream_head_in_full,
};
use crate::runtime::RuntimeModel;
use crate::session::{serve, PhaseModel, SessionModel};
use crate::status::has_body;
use crate::text::{is_white_space, upper};
use crate::text_laws::all_white;
use crate::transcript::Machine;
use crate::transfer::TransferStats;
use vstd::prelude::*;

verus! {

// ---------------------------------------------------------------------------
// Steps
// ---------------------------------------------------------------------------

/// Something that is done, and what comes of it.
pub struct Step {
    pub action: ActionModel,
    pub event: EventModel,
}

/// Just these steps are what is done, one after the other.
pub open spec fn follows<M: Machine>(m: M, steps: Seq<Step>) -> bool
    decreases steps.len(),
{
    steps.len() > 0 ==> {
        &&& m.wanted() == steps[0].action
        &&& m.admits(steps[0].event)
        &&& follows(m.advanced(steps[0].event), steps.drop_first())
    }
}

/// The state behind the steps.
pub open spec fn behind<M: Machine>(m: M, steps: Seq<Step>) -> M
    decreases steps.len(),
{
    if steps.len() == 0 {
        m
    } else {
        behind(m.advanced(steps[0].event), steps.drop_first())
    }
}

/// In each of the steps something is done.
pub open spec fn no_stop(steps: Seq<Step>) -> bool {
    forall|i: int| 0 <= i < steps.len() ==> !((#[trigger] steps[i]).action is Stop)
}

proof fn lemma_concat<M: Machine>(m: M, a: Seq<Step>, b: Seq<Step>)
    ensures
        follows(m, a + b) <==> follows(m, a) && follows(behind(m, a), b),
        behind(m, a + b) == behind(behind(m, a), b),
    decreases a.len(),
{
    if a.len() == 0 {
        assert(a + b =~= b);
    } else {
        assert((a + b).drop_first() =~= a.drop_first() + b);
        lemma_concat(m.advanced(a[0].event), a.drop_first(), b);
    }
}

proof fn lemma_one<M: Machine>(m: M, step: Step)
    ensures
        follows(m, seq![step]) <==> m.wanted() == step.action && m.admits(step.event),
        behind(m, seq![step]) == m.advanced(step.event),
{
    let steps = seq![step];
    assert(steps.drop_first().len() == 0);
    reveal_with_fuel(follows, 2);
    reveal_with_fuel(behind, 2);
}

/// Reading the lines.
pub open spec fn reading(from: Peer, lines: Seq<Seq<char>>) -> Seq<Step> {
    lines.map_values(
        |line: Seq<char>|
            Step { action: ActionModel::ReadLine { from }, event: EventModel::Line(line) },
    )
}

/// Writing a text.
pub open spec fn writing(to: Peer, text: Seq<char>) -> Step {
    Step { action: ActionModel::Write { to, text }, event: EventModel::Done }
}

// ---------------------------------------------------------------------------
// Bodies
// ---------------------------------------------------------------------------

/// Reading a line and passing it on.
pub open spec fn passing(from: Peer, to: Peer, line: Seq<char>) -> Seq<Step> {
    reading(from, seq![line]) + seq![writing(to, line)]
}

/// Copying bytes.
pub open spec fn copying(from: Peer, to: Peer, limit: Option<u64>) -> Step {
    Step { action: ActionModel::Copy { from, to, limit }, event: EventModel::Done }
}

/// Passing on chunks, each with the line in front of it and the two bytes behind
/// it.
pub open spec fn passing_chunks(from: Peer, to: Peer, sizes: Seq<Seq<char>>) -> Seq<Step>
    decreases sizes.len(),
{
    if sizes.len() == 0 {
        Seq::empty()
    } else {
        passing(from, to, sizes[0]) + seq![
            copying(from, to, Some((chunk_size(sizes[0]).unwrap() + 2) as u64)),
        ] + passing_chunks(from, to, sizes.drop_first())
    }
}

/// Passing on lines.
pub open spec fn passing_lines(from: Peer, to: Peer, lines: Seq<Seq<char>>) -> Seq<Step>
    decreases lines.len(),
{
    if lines.len() == 0 {
        Seq::empty()
    } else {
        passing(from, to, lines[0]) + passing_lines(from, to, lines.drop_first())
    }
}

/// A body as it comes over the wire.
pub enum BodyText {
    /// There is none.
    Nothing,
    /// So many bytes.
    Bytes(u64),
    /// Chunks with the given lines in front of them, the line that announces
    /// that no more follow, lines behind that, and a blank line.
    Chunks {
        sizes: Seq<Seq<char>>,
        last: Seq<char>,
        trailers: Seq<Seq<char>>,
        end: Seq<char>,
    },
    /// Chunks, and then a line that gives no size.
    Fault { sizes: Seq<Seq<char>>, line: Seq<char> },
}

/// The lines in front of chunks that are not empty.
pub open spec fn are_sizes(sizes: Seq<Seq<char>>) -> bool {
    forall|i: int|
        0 <= i < sizes.len() ==> {
            &&& chunk_size(#[trigger] sizes[i]) is Some
            &&& 0 < chunk_size(sizes[i]).unwrap()
            &&& chunk_size(sizes[i]).unwrap() + 2 <= u64::MAX
        }
}

/// No line is blank.
pub open spec fn none_blank(lines: Seq<Seq<char>>) -> bool {
    forall|i: int| 0 <= i < lines.len() ==> !is_blank(#[trigger] lines[i])
}

/// The body is one that was announced.
pub open spec fn was_announced(framing: BodyFraming, body: BodyText) -> bool {
    match body {
        BodyText::Nothing => !framing.chunked && framing.content_length is None,
        BodyText::Bytes(n) => !framing.chunked && framing.content_length == Some(n),
        BodyText::Chunks { sizes, last, trailers, end } => {
            &&& framing.chunked
            &&& are_sizes(sizes)
            &&& chunk_size(last) == Some(0nat)
            &&& none_blank(trailers)
            &&& is_blank(end)
        },
        BodyText::Fault { sizes, line } => {
            &&& framing.chunked
            &&& are_sizes(sizes)
            &&& chunk_size(line) is None
        },
    }
}

/// The steps of passing on a body.
pub open spec fn body_steps(from: Peer, to: Peer, body: BodyText) -> Seq<Step> {
    match body {
        BodyText::Nothing => Seq::empty(),
        BodyText::Bytes(n) => seq![copying(from, to, Some(n))],
        BodyText::Chunks { sizes, last, trailers, end } => passing_chunks(from, to, sizes)
            + passing(from, to, last) + passing_lines(from, to, trailers) + passing(from, to, end),
        BodyText::Fault { sizes, line } => passing_chunks(from, to, sizes) + passing(
            from,
            to,
            line,
        ),
    }
}

/// How the passing on of a body ends.
pub open spec fn body_end(body: BodyText) -> BodyStateModel {
    match body {
        BodyText::Fault { .. } => BodyStateModel::Broken(ErrorModel::InvalidChunkSize),
        _ => BodyStateModel::Complete,
    }
}

proof fn lemma_passing(b: BodyModel, line: Seq<char>)
    requires
        b.state is Size || b.state is Trailer,
        b.state is Size && chunk_size(line) is Some ==> chunk_size(line).unwrap() + 2 <= u64::MAX,
    ensures
        follows(b, passing(b.from, b.to, line)),
        no_stop(passing(b.from, b.to, line)),
        behind(b, passing(b.from, b.to, line)) == b.next(EventModel::Line(line)).next(
            EventModel::Done,
        ),
{
    let read = Step {
        action: ActionModel::ReadLine { from: b.from },
        event: EventModel::Line(line),
    };
    assert(reading(b.from, seq![line]) =~= seq![read]);
    lemma_concat(b, seq![read], seq![writing(b.to, line)]);
    lemma_one(b, read);
    lemma_one(b.next(EventModel::Line(line)), writing(b.to, line));
}

proof fn lemma_no_stop_concat(a: Seq<Step>, b: Seq<Step>)
    requires
        no_stop(a),
        no_stop(b),
    ensures
        no_stop(a + b),
{
    let all = a + b;
    assert forall|i: int| 0 <= i < all.len() implies !((#[trigger] all[i]).action is Stop) by {
        if i < a.len() {
            assert(all[i] == a[i]);
        } else {
            assert(all[i] == b[i - a.len()]);
        }
    }
}

proof fn lemma_passing_chunks(b: BodyModel, sizes: Seq<Seq<char>>)
    requires
        b.state is Size,
        are_sizes(sizes),
    ensures
        follows(b, passing_chunks(b.from, b.to, sizes)),
        no_stop(passing_chunks(b.from, b.to, sizes)),
        behind(b, passing_chunks(b.from, b.to, sizes)) == b,
    decreases sizes.len(),
{
    if sizes.len() > 0 {
        let line = sizes[0];
        let rest = sizes.drop_first();
        let n = chunk_size(line).unwrap();
        assert(chunk_size(sizes[0]) is Some);
        assert forall|i: int| 0 <= i < rest.len() implies {
            &&& chunk_size(#[trigger] rest[i]) is Some
            &&& 0 < chunk_size(rest[i]).unwrap()
            &&& chunk_size(rest[i]).unwrap() + 2 <= u64::MAX
        } by {
            assert(rest[i] == sizes[i + 1]);
        }
        let first = passing(b.from, b.to, line);
        let copy = copying(b.from, b.to, Some((n + 2) as u64));
        let later = passing_chunks(b.from, b.to, rest);
        lemma_passing(b, line);
        let mid = behind(b, first);
        assert(mid.state == BodyStateModel::Chunk((n + 2) as u64));
        lemma_one(mid, copy);
        lemma_concat(b, first, seq![copy]);
        assert(mid.next(EventModel::Done) == b);
        lemma_passing_chunks(b, rest);
        lemma_concat(b, first + seq![copy], later);
        lemma_no_stop_concat(first, seq![copy]);
        lemma_no_stop_concat(first + seq![copy], later);
    }
}

proof fn lemma_passing_lines(b: BodyModel, lines: Seq<Seq<char>>)
    requires
        b.state is Trailer,
        none_blank(lines),
    ensures
        follows(b, passing_lines(b.from, b.to, lines)),
        no_stop(passing_lines(b.from, b.to, lines)),
        behind(b, passing_lines(b.from, b.to, lines)) == b,
    decreases lines.len(),
{
    if lines.len() > 0 {
        let rest = lines.drop_first();
        assert(!is_blank(lines[0]));
        assert forall|i: int| 0 <= i < rest.len() implies !is_blank(#[trigger] rest[i]) by {
            assert(rest[i] == lines[i + 1]);
        }
        let first = passing(b.from, b.to, lines[0]);
        lemma_passing(b, lines[0]);
        assert(behind(b, first) == b);
        lemma_passing_lines(b, rest);
        lemma_concat(b, first, passing_lines(b.from, b.to, rest));
        lemma_no_stop_concat(first, passing_lines(b.from, b.to, rest));
    }
}

/// A body is passed on in just the steps that it calls for, and then is
/// complete. A line in front of a chunk that gives no size is passed on, and
/// then ends the body as a fault.
pub proof fn law_body_is_passed_on_step_by_step(
    from: Peer,
    to: Peer,
    framing: BodyFraming,
    body: BodyText,
)
    requires
        was_announced(framing, body),
    ensures
        follows(BodyModel::start(from, to, framing), body_steps(from, to, body)),
        no_stop(body_steps(from, to, body)),
        behind(BodyModel::start(from, to, framing), body_steps(from, to, body)) == (BodyModel {
            from,
            to,
            state: body_end(body),
        }),
{
    let b = BodyModel::start(from, to, framing);
    match body {
        BodyText::Nothing => {},
        BodyText::Bytes(n) => {
            lemma_one(b, copying(from, to, Some(n)));
        },
        BodyText::Chunks { sizes, last, trailers, end } => {
            let chunks = passing_chunks(from, to, sizes);
            lemma_passing_chunks(b, sizes);
            lemma_passing(b, last);
            let t = behind(b, passing(from, to, last));
            assert(t.state is Trailer);
            lemma_concat(b, chunks, passing(from, to, last));
            lemma_no_stop_concat(chunks, passing(from, to, last));
            let a = chunks + passing(from, to, last);
            lemma_passing_lines(t, trailers);
            lemma_concat(b, a, passing_lines(from, to, trailers));
            lemma_no_stop_concat(a, passing_lines(from, to, trailers));
            lemma_passing(t, end);
            lemma_concat(b, a + passing_lines(from, to, trailers), passing(from, to, end));
            lemma_no_stop_concat(
                a + passing_lines(from, to, trailers),
                passing(from, to, end),
            );
        },
        BodyText::Fault { sizes, line } => {
            let chunks = passing_chunks(from, to, sizes);
            lemma_passing_chunks(b, sizes);
            lemma_passing(b, line);
            lemma_concat(b, chunks, passing(from, to, line));
            lemma_no_stop_concat(chunks, passing(from, to, line));
        },
    }
}

// ---------------------------------------------------------------------------
// Parts of a whole
// ---------------------------------------------------------------------------

/// The state of an exchange whose response is at `r`.
spec fn at_response(head: HeadModel, r: RelayModel) -> HttpStateModel {
    match r.state {
        RelayStateModel::Complete { reuse } => HttpStateModel::Complete {
            keep: reuse && !wants_close(head),
        },
        RelayStateModel::Broken(error) => HttpStateModel::Broken(error),
        _ => HttpStateModel::Relaying(r),
    }
}

/// The state of a response whose body is at `b`.
spec fn at_body(b: BodyModel, reuse: bool) -> RelayStateModel {
    match b.state {
        BodyStateModel::Complete => RelayStateModel::Complete { reuse },
        BodyStateModel::Broken(error) => RelayStateModel::Broken(error),
        _ => RelayStateModel::Body { body: b, reuse },
    }
}

/// The phase of a connection whose exchange is at `h`.
spec fn at_exchange(h: HttpModel) -> PhaseModel {
    match h.state {
        HttpStateModel::Complete { keep } => if keep {
            PhaseModel::Head(HeadReaderModel::RequestLine)
        } else {
            PhaseModel::Over {
                transfer: TransferStats { client_to_upstream: 0, upstream_to_client: 0 },
                error: None,
            }
        },
        HttpStateModel::Broken(error) => PhaseModel::Over {
            transfer: TransferStats { client_to_upstream: 0, upstream_to_client: 0 },
            error: Some(error),
        },
        _ => PhaseModel::Http(h),
    }
}

proof fn lemma_no_stop_rest(steps: Seq<Step>)
    requires
        steps.len() > 0,
        no_stop(steps),
    ensures
        no_stop(steps.drop_first()),
        !(steps[0].action is Stop),
{
    assert forall|i: int| 0 <= i < steps.drop_first().len() implies !((
    #[trigger] steps.drop_first()[i]).action is Stop) by {
        assert(steps.drop_first()[i] == steps[i + 1]);
    }
}

proof fn lemma_body_in_exchange(h: HttpModel, b: BodyModel, steps: Seq<Step>)
    requires
        h.state == after_body(b),
        follows(b, steps),
        no_stop(steps),
    ensures
        follows(h, steps),
        behind(h, steps) == (HttpModel { head: h.head, state: after_body(behind(b, steps)) }),
    decreases steps.len(),
{
    if steps.len() > 0 {
        lemma_no_stop_rest(steps);
        lemma_body_in_exchange(
            h.next(steps[0].event),
            b.next(steps[0].event),
            steps.drop_first(),
        );
    }
}

proof fn lemma_body_in_response(r: RelayModel, b: BodyModel, reuse: bool, steps: Seq<Step>)
    requires
        r.state == at_body(b, reuse),
        follows(b, steps),
        no_stop(steps),
    ensures
        follows(r, steps),
        behind(r, steps) == (RelayModel {
            method: r.method,
            state: at_body(behind(b, steps), reuse),
        }),
    decreases steps.len(),
{
    if steps.len() > 0 {
        lemma_no_stop_rest(steps);
        lemma_body_in_response(
            r.next(steps[0].event),
            b.next(steps[0].event),
            reuse,
            steps.drop_first(),
        );
    }
}

proof fn lemma_response_in_exchange(h: HttpModel, r: RelayModel, steps: Seq<Step>)
    requires
        h.state == at_response(h.head, r),
        follows(r, steps),
        no_stop(steps),
    ensures
        follows(h, steps),
        behind(h, steps) == (HttpModel {
            head: h.head,
            state: at_response(h.head, behind(r, steps)),
        }),
    decreases steps.len(),
{
    if steps.len() > 0 {
        lemma_no_stop_rest(steps);
        lemma_response_in_exchange(
            h.next(steps[0].event),
            r.next(steps[0].event),
            steps.drop_first(),
        );
    }
}

proof fn lemma_exchange_in_session(s: SessionModel, h: HttpModel, steps: Seq<Step>)
    requires
        s.phase == at_exchange(h),
        follows(h, steps),
        no_stop(steps),
    ensures
        follows(s, steps),
        behind(s, steps) == (SessionModel {
            target: s.target,
            phase: at_exchange(behind(h, steps)),
        }),
    decreases steps.len(),
{
    if steps.len() > 0 {
        lemma_no_stop_rest(steps);
        lemma_exchange_in_session(
            s.next(steps[0].event),
            h.next(steps[0].event),
            steps.drop_first(),
        );
    }
}

// ---------------------------------------------------------------------------
// Responses
// ---------------------------------------------------------------------------

/// The body of a response as it comes over the wire.
pub enum ResponseBody {
    /// There is none, as the method or the status code tells.
    Nothing,
    /// A body of announced extent.
    Announced(BodyText),
    /// All that the upstream server sends.
    All,
}

/// A response as it comes over the wire.
pub struct ResponseText {
    pub status_line: Seq<char>,
    pub headers: Seq<Seq<char>>,
    pub end: Seq<char>,
    pub body: ResponseBody,
}

/// The response is one that an upstream server can send to a request with the
/// method `method`.
pub open spec fn is_response(method: Seq<char>, r: ResponseText) -> bool {
    let framing = framing(r.headers);
    &&& r.status_line.len() > 0
    &&& none_blank(r.headers)
    &&& is_blank(r.end)
    &&& match r.body {
        ResponseBody::Nothing => !has_body(method, r.status_line),
        ResponseBody::Announced(body) => {
            &&& has_body(method, r.status_line)
            &&& framing.chunked || framing.content_length is Some
            &&& was_announced(framing, body)
        },
        ResponseBody::All => {
            &&& has_body(method, r.status_line)
            &&& !framing.chunked
            &&& framing.content_length is None
        },
    }
}

/// The steps of passing on the body of a response.
pub open spec fn response_body_steps(body: ResponseBody) -> Seq<Step> {
    match body {
        ResponseBody::Nothing => Seq::empty(),
        ResponseBody::Announced(body) => body_steps(Peer::Upstream, Peer::Client, body),
        ResponseBody::All => seq![copying(Peer::Upstream, Peer::Client, None)],
    }
}

/// The steps of passing on a response: the status line as soon as it was read;
/// the headers that are passed on, and an empty line, when all of them were read;
/// and the body.
pub open spec fn response_steps(r: ResponseText) -> Seq<Step> {
    passing(Peer::Upstream, Peer::Client, r.status_line) + reading(
        Peer::Upstream,
        r.headers.push(r.end),
    ) + seq![writing(Peer::Client, joined(forwarded(r.headers)) + seq!['\r', '\n'])]
        + response_body_steps(r.body)
}

/// How the passing on of a response ends: its end shows by itself unless it was
/// all that the upstream server sent.
pub open spec fn response_end(body: ResponseBody) -> RelayStateModel {
    match body {
        ResponseBody::Announced(BodyText::Fault { .. }) => RelayStateModel::Broken(
            ErrorModel::InvalidChunkSize,
        ),
        ResponseBody::All => RelayStateModel::Complete { reuse: false },
        _ => RelayStateModel::Complete { reuse: true },
    }
}

proof fn lemma_reading_response_headers(
    r: RelayModel,
    status_line: Seq<char>,
    headers: Seq<Seq<char>>,
    lines: Seq<Seq<char>>,
    end: Seq<char>,
)
    requires
        r.state == (RelayStateModel::Headers { status_line, headers }),
        none_blank(lines),
        is_blank(end),
    ensures
        follows(r, reading(Peer::Upstream, lines.push(end))),
        no_stop(reading(Peer::Upstream, lines.push(end))),
        behind(r, reading(Peer::Upstream, lines.push(end))) == (RelayModel {
            method: r.method,
            state: RelayStateModel::ForwardHead { status_line, headers: headers + lines },
        }),
    decreases lines.len(),
{
    let steps = reading(Peer::Upstream, lines.push(end));
    if lines.len() == 0 {
        assert(steps.drop_first().len() == 0);
        assert(steps[0].event == EventModel::Line(end));
        assert(headers + lines =~= headers);
        reveal_with_fuel(follows, 2);
        reveal_with_fuel(behind, 2);
    } else {
        let rest = lines.drop_first();
        let line = lines[0];
        assert(!is_blank(lines[0]));
        assert forall|i: int| 0 <= i < rest.len() implies !is_blank(#[trigger] rest[i]) by {
            assert(rest[i] == lines[i + 1]);
        }
        assert(steps[0].event == EventModel::Line(line));
        assert(steps.drop_first() =~= reading(Peer::Upstream, rest.push(end)));
        lemma_reading_response_headers(
            r.next(EventModel::Line(line)),
            status_line,
            headers.push(line),
            rest,
            end,
        );
        assert(headers.push(line) + rest =~= headers + lines);
    }
}

/// A response is passed on in just the steps that it calls for.
pub proof fn law_response_is_passed_on_step_by_step(method: Seq<char>, r: ResponseText)
    requires
        is_response(method, r),
    ensures
        follows(RelayModel::start(method), response_steps(r)),
        no_stop(response_steps(r)),
        behind(RelayModel::start(method), response_steps(r)) == (RelayModel {
            method,
            state: response_end(r.body),
        }),
{
    let start = RelayModel::start(method);
    let ResponseText { status_line, headers, end, body } = r;
    let read = Step {
        action: ActionModel::ReadLine { from: Peer::Upstream },
        event: EventModel::Line(status_line),
    };
    let none = Seq::<Seq<char>>::empty();
    let first = passing(Peer::Upstream, Peer::Client, status_line);
    assert(reading(Peer::Upstream, seq![status_line]) =~= seq![read]);
    lemma_one(start, read);
    let forward = start.next(EventModel::Line(status_line));
    lemma_one(forward, writing(Peer::Client, status_line));
    lemma_concat(start, seq![read], seq![writing(Peer::Client, status_line)]);
    let in_headers = forward.next(EventModel::Done);
    assert(behind(start, first) == in_headers);

    let heads = reading(Peer::Upstream, headers.push(end));
    lemma_reading_response_headers(in_headers, status_line, none, headers, end);
    assert(none + headers =~= headers);
    lemma_concat(start, first, heads);
    lemma_no_stop_concat(first, heads);
    let at_head = behind(in_headers, heads);

    let write = writing(Peer::Client, joined(forwarded(headers)) + seq!['\r', '\n']);
    law_client_head_in_full(headers);
    lemma_one(at_head, write);
    lemma_concat(start, first + heads, seq![write]);
    lemma_no_stop_concat(first + heads, seq![write]);
    let at_start_of_body = at_head.next(EventModel::Done);
    let front = first + heads + seq![write];

    let framing = framing(headers);
    match body {
        ResponseBody::Nothing => {},
        ResponseBody::Announced(text) => {
            law_body_is_passed_on_step_by_step(Peer::Upstream, Peer::Client, framing, text);
            let b = BodyModel::start(Peer::Upstream, Peer::Client, framing);
            assert(at_start_of_body.state == at_body(b, true));
            lemma_body_in_response(
                at_start_of_body,
                b,
                true,
                body_steps(Peer::Upstream, Peer::Client, text),
            );
        },
        ResponseBody::All => {
            lemma_one(at_start_of_body, copying(Peer::Upstream, Peer::Client, None));
        },
    }
    lemma_concat(start, front, response_body_steps(body));
    lemma_no_stop_concat(front, response_body_steps(body));
}

// ---------------------------------------------------------------------------
// Heads of requests
// ---------------------------------------------------------------------------

/// Making known the target of the first request of a connection.
pub open spec fn announcing(known: Option<Seq<char>>, target: Seq<char>) -> Seq<Step> {
    match known {
        None => seq![
            Step { action: ActionModel::Announce { target }, event: EventModel::Done },
        ],
        Some(_) => Seq::empty(),
    }
}

/// The target that a connection has made known when a request is served.
pub open spec fn known_target(known: Option<Seq<char>>, target: Seq<char>) -> Option<Seq<char>> {
    match known {
        None => Some(target),
        Some(known) => Some(known),
    }
}

/// The steps of reading the head of a request and making its target known, if it
/// is the first.
pub open spec fn head_steps(
    known: Option<Seq<char>>,
    line: Seq<char>,
    headers: Seq<Seq<char>>,
    end: Seq<char>,
    target: Seq<char>,
) -> Seq<Step> {
    reading(Peer::Client, seq![line]) + reading(Peer::Client, headers.push(end)) + announcing(
        known,
        target,
    )
}

proof fn lemma_reading_headers(
    s: SessionModel,
    head: HeadModel,
    lines: Seq<Seq<char>>,
    end: Seq<char>,
)
    requires
        s.phase == PhaseModel::Head(HeadReaderModel::Headers(head)),
        none_blank(lines),
        is_blank(end),
    ensures
        ({
            let full = HeadModel { headers: head.headers + lines, ..head };
            let steps = reading(Peer::Client, lines.push(end)) + announcing(
                s.target,
                head.target,
            );
            &&& follows(s, steps)
            &&& no_stop(steps)
            &&& behind(s, steps) == (SessionModel {
                target: known_target(s.target, head.target),
                phase: serve(full),
            })
        }),
    decreases lines.len(),
{
    let steps = reading(Peer::Client, lines.push(end));
    let shown = announcing(s.target, head.target);
    if lines.len() == 0 {
        let read = Step {
            action: ActionModel::ReadLine { from: Peer::Client },
            event: EventModel::Line(end),
        };
        assert(steps =~= seq![read]);
        assert(head.headers + lines =~= head.headers);
        lemma_one(s, read);
        let next = s.next(EventModel::Line(end));
        if s.target is None {
            lemma_one(next, shown[0]);
        }
        lemma_concat(s, seq![read], shown);
        lemma_no_stop_concat(seq![read], shown);
    } else {
        let rest = lines.drop_first();
        let line = lines[0];
        assert(!is_blank(lines[0]));
        assert forall|i: int| 0 <= i < rest.len() implies !is_blank(#[trigger] rest[i]) by {
            assert(rest[i] == lines[i + 1]);
        }
        let later = reading(Peer::Client, rest.push(end)) + shown;
        assert((steps + shown)[0].event == EventModel::Line(line));
        assert((steps + shown).drop_first() =~= later);
        let next_head = HeadModel { headers: head.headers.push(line), ..head };
        lemma_reading_headers(s.next(EventModel::Line(line)), next_head, rest, end);
        assert(next_head.headers + rest =~= head.headers + lines);
        let read = (steps + shown)[0];
        assert(seq![read] + later =~= steps + shown);
        lemma_no_stop_concat(seq![read], later);
    }
}

proof fn lemma_head_steps(
    s: SessionModel,
    line: Seq<char>,
    begun: HeadModel,
    headers: Seq<Seq<char>>,
    end: Seq<char>,
)
    requires
        s.phase == PhaseModel::Head(HeadReaderModel::RequestLine),
        !is_blank(line),
        request_line(line) == Some(begun),
        begun.headers.len() == 0,
        none_blank(headers),
        is_blank(end),
    ensures
        ({
            let steps = head_steps(s.target, line, headers, end, begun.target);
            &&& follows(s, steps)
            &&& no_stop(steps)
            &&& behind(s, steps) == (SessionModel {
                target: known_target(s.target, begun.target),
                phase: serve(HeadModel { headers, ..begun }),
            })
        }),
{
    let read = Step {
        action: ActionModel::ReadLine { from: Peer::Client },
        event: EventModel::Line(line),
    };
    let next = s.next(EventModel::Line(line));
    let later = reading(Peer::Client, headers.push(end)) + announcing(s.target, begun.target);
    assert(reading(Peer::Client, seq![line]) =~= seq![read]);
    lemma_one(s, read);
    lemma_reading_headers(next, begun, headers, end);
    assert(begun.headers + headers =~= headers);
    lemma_concat(s, seq![read], later);
    lemma_no_stop_concat(seq![read], later);
    assert(head_steps(s.target, line, headers, end, begun.target) =~= seq![read] + later);
}

/// A request as a client sends it: a request line of a method, a target and a
/// version, and of white space at its end; headers; and a blank line.
pub struct RequestText {
    pub method: Seq<char>,
    pub target: Seq<char>,
    pub version: Seq<char>,
    pub line_end: Seq<char>,
    pub headers: Seq<Seq<char>>,
    pub end: Seq<char>,
}

/// The parts of the request are what they should be.
pub open spec fn is_request(q: RequestText) -> bool {
    &&& q.method.len() > 0
    &&& !q.method.contains(' ')
    &&& q.target.len() > 0
    &&& !q.target.contains(' ')
    &&& q.version.len() > 0
    &&& !is_white_space(q.version.last())
    &&& all_white(q.line_end)
    &&& none_blank(q.headers)
    &&& is_blank(q.end)
}

/// The request line.
pub open spec fn line_of(q: RequestText) -> Seq<char> {
    q.method + seq![' '] + (q.target + seq![' '] + q.version) + q.line_end
}

/// What the request asks for.
pub open spec fn head_of(q: RequestText) -> HeadModel {
    HeadModel {
        method: upper(q.method),
        target: q.target,
        version: q.version,
        headers: q.headers,
    }
}

/// The steps of reading a request and making its target known, if it is the
/// first.
pub open spec fn asking(known: Option<Seq<char>>, q: RequestText) -> Seq<Step> {
    head_steps(known, line_of(q), q.headers, q.end, q.target)
}

proof fn lemma_asking(s: SessionModel, q: RequestText)
    requires
        s.phase == PhaseModel::Head(HeadReaderModel::RequestLine),
        is_request(q),
    ensures
        follows(s, asking(s.target, q)),
        no_stop(asking(s.target, q)),
        behind(s, asking(s.target, q)) == (SessionModel {
            target: known_target(s.target, q.target),
            phase: serve(head_of(q)),
        }),
{
    let line = line_of(q);
    law_request_line_with_version(q.method, q.target, q.version, q.line_end);
    assert(line.len() > 2);
    assert(!is_blank(line)) by {
        reveal_strlit("\r\n");
        reveal_strlit("\n");
    }
    let begun = request_line(line).unwrap();
    lemma_head_steps(s, line, begun, q.headers, q.end);
}

// ---------------------------------------------------------------------------
// Exchanges
// ---------------------------------------------------------------------------

/// The steps of sending a request on: a connection is made to the host and the
/// port of its target; the head goes out with the path in place of the target,
/// without the headers that concern one connection only, and with a header that
/// asks for the connection to be closed; then goes the body.
pub open spec fn sending(q: RequestText, path: Seq<char>, body: BodyText) -> Seq<Step> {
    seq![
        Step {
            action: ActionModel::Dial {
                host: origin(q.target).host,
                port: origin(q.target).port,
            },
            event: EventModel::Done,
        },
    ] + seq![
        writing(
            Peer::Upstream,
            upper(q.method) + seq![' '] + path + seq![' '] + q.version + seq!['\r', '\n'] + joined(
                forwarded(q.headers),
            ) + "Connection: close\r\n\r\n"@,
        ),
    ] + body_steps(Peer::Client, Peer::Upstream, body)
}

/// Telling the upstream server that the request is complete.
pub open spec fn finishing() -> Step {
    Step { action: ActionModel::ShutdownUpstream, event: EventModel::Done }
}

/// What is asked of a request that is sent on: it is no `CONNECT` request, its
/// path begins at the first slash behind the scheme, and its body is the one
/// that its headers announce.
pub open spec fn can_be_sent(
    q: RequestText,
    authority: Seq<char>,
    path: Seq<char>,
    body: BodyText,
) -> bool {
    &&& is_request(q)
    &&& upper(q.method) != "CONNECT"@
    &&& is_written_as(q.target, authority + path)
    &&& !authority.contains('/')
    &&& path.len() == 0 || path[0] == '/'
    &&& was_announced(framing(q.headers), body)
}

proof fn lemma_sending(
    s: SessionModel,
    q: RequestText,
    authority: Seq<char>,
    path: Seq<char>,
    body: BodyText,
)
    requires
        s.phase == PhaseModel::Head(HeadReaderModel::RequestLine),
        can_be_sent(q, authority, path, body),
    ensures
        follows(s, asking(s.target, q) + sending(q, path, body)),
        no_stop(asking(s.target, q) + sending(q, path, body)),
        behind(s, asking(s.target, q) + sending(q, path, body)) == (SessionModel {
            target: known_target(s.target, q.target),
            phase: at_exchange(
                HttpModel {
                    head: head_of(q),
                    state: after_body(
                        BodyModel {
                            from: Peer::Client,
                            to: Peer::Upstream,
                            state: body_end(body),
                        },
                    ),
                },
            ),
        }),
{
    let head = head_of(q);
    let steps = sending(q, path, body);
    let h = HttpModel::start(head);
    let text = body_steps(Peer::Client, Peer::Upstream, body);
    lemma_asking(s, q);
    law_upstream_head_in_full(head, authority, path);
    let dial = steps[0];
    let write = steps[1];
    lemma_one(h, dial);
    let h1 = h.next(EventModel::Done);
    lemma_one(h1, write);
    let h2 = h1.next(EventModel::Done);
    lemma_concat(h, seq![dial], seq![write]);
    lemma_no_stop_concat(seq![dial], seq![write]);
    let b = BodyModel::start(Peer::Client, Peer::Upstream, framing(q.headers));
    law_body_is_passed_on_step_by_step(
        Peer::Client,
        Peer::Upstream,
        framing(q.headers),
        body,
    );
    lemma_body_in_exchange(h2, b, text);
    lemma_concat(h, seq![dial] + seq![write], text);
    lemma_no_stop_concat(seq![dial] + seq![write], text);
    assert(steps =~= seq![dial] + seq![write] + text);
    let asked = behind(s, asking(s.target, q));
    assert(asked.phase == at_exchange(h));
    lemma_exchange_in_session(asked, h, steps);
    lemma_concat(s, asking(s.target, q), steps);
    lemma_no_stop_concat(asking(s.target, q), steps);
}

/// How a connection stands when it has ended with the given error or without
/// one, and no tunnel was open.
pub open spec fn ended_with(known: Option<Seq<char>>, error: Option<ErrorModel>) -> SessionModel {
    SessionModel {
        target: known,
        phase: PhaseModel::Over {
            transfer: TransferStats { client_to_upstream: 0, upstream_to_client: 0 },
            error,
        },
    }
}

/// A request is served in just these steps: it is read, its target is made known
/// if it is the first, it is sent on, the upstream server is told that it is
/// complete, and the response is passed on. Then the next request is awaited if
/// the response shows its own end and the client does not want its connection
/// closed; otherwise the connection is over.
pub proof fn law_request_is_served(
    s: SessionModel,
    q: RequestText,
    authority: Seq<char>,
    path: Seq<char>,
    body: BodyText,
    r: ResponseText,
)
    requires
        s.phase == PhaseModel::Head(HeadReaderModel::RequestLine),
        can_be_sent(q, authority, path, body),
        !(body is Fault),
        is_response(upper(q.method), r),
    ensures
        ({
            let steps = asking(s.target, q) + sending(q, path, body) + seq![finishing()]
                + response_steps(r);
            let known = known_target(s.target, q.target);
            &&& follows(s, steps)
            &&& behind(s, steps) == match r.body {
                ResponseBody::Announced(BodyText::Fault { .. }) => ended_with(
                    known,
                    Some(ErrorModel::InvalidChunkSize),
                ),
                ResponseBody::All => ended_with(known, None),
                _ => if wants_close(head_of(q)) {
                    ended_with(known, None)
                } else {
                    SessionModel {
                        target: known,
                        phase: PhaseModel::Head(HeadReaderModel::RequestLine),
                    }
                },
            }
        }),
{
    let front = asking(s.target, q) + sending(q, path, body);
    let head = head_of(q);
    lemma_sending(s, q, authority, path, body);
    lemma_finishing(s, q, front);
    let relaying = behind(s, front + seq![finishing()]);
    let relay = RelayModel::start(head.method);
    let h = HttpModel { head, state: HttpStateModel::Relaying(relay) };
    law_response_is_passed_on_step_by_step(head.method, r);
    lemma_response_in_exchange(h, relay, response_steps(r));
    lemma_exchange_in_session(relaying, h, response_steps(r));
    lemma_concat(s, front + seq![finishing()], response_steps(r));
}

proof fn lemma_finishing(s: SessionModel, q: RequestText, front: Seq<Step>)
    requires
        follows(s, front),
        behind(s, front).phase == PhaseModel::Http(
            HttpModel { head: head_of(q), state: HttpStateModel::Closing },
        ),
    ensures
        follows(s, front + seq![finishing()]),
        behind(s, front + seq![finishing()]) == (SessionModel {
            target: behind(s, front).target,
            phase: PhaseModel::Http(
                HttpModel {
                    head: head_of(q),
                    state: HttpStateModel::Relaying(RelayModel::start(upper(q.method))),
                },
            ),
        }),
{
    lemma_one(behind(s, front), finishing());
    lemma_concat(s, front, seq![finishing()]);
}

/// A request whose body holds a line in front of a chunk that gives no size ends
/// the connection with that error, after the line was sent on.
pub proof fn law_faulty_request_ends_connection(
    s: SessionModel,
    q: RequestText,
    authority: Seq<char>,
    path: Seq<char>,
    body: BodyText,
)
    requires
        s.phase == PhaseModel::Head(HeadReaderModel::RequestLine),
        can_be_sent(q, authority, path, body),
        body is Fault,
    ensures
        follows(s, asking(s.target, q) + sending(q, path, body)),
        behind(s, asking(s.target, q) + sending(q, path, body)) == ended_with(
            known_target(s.target, q.target),
            Some(ErrorModel::InvalidChunkSize),
        ),
{
    lemma_sending(s, q, authority, path, body);
}

/// An upstream server that closes its connection without a response ends the
/// connection of the client with that error.
pub proof fn law_missing_response_ends_connection(
    s: SessionModel,
    q: RequestText,
    authority: Seq<char>,
    path: Seq<char>,
    body: BodyText,
)
    requires
        s.phase == PhaseModel::Head(HeadReaderModel::RequestLine),
        can_be_sent(q, authority, path, body),
        !(body is Fault),
    ensures
        ({
            let steps = asking(s.target, q) + sending(q, path, body) + seq![finishing()] + reading(
                Peer::Upstream,
                seq![Seq::empty()],
            );
            &&& follows(s, steps)
            &&& behind(s, steps) == ended_with(
                known_target(s.target, q.target),
                Some(ErrorModel::EmptyResponse),
            )
        }),
{
    let front = asking(s.target, q) + sending(q, path, body);
    let read = Step {
        action: ActionModel::ReadLine { from: Peer::Upstream },
        event: EventModel::Line(Seq::empty()),
    };
    lemma_sending(s, q, authority, path, body);
    lemma_finishing(s, q, front);
    assert(reading(Peer::Upstream, seq![Seq::empty()]) =~= seq![read]);
    lemma_one(behind(s, front + seq![finishing()]), read);
    lemma_concat(s, front + seq![finishing()], seq![read]);
}

/// A line that is no request line ends the connection with that error; a blank
/// line, or the end of the input, ends it without one.
pub proof fn law_what_is_no_request_ends_connection(s: SessionModel, line: Seq<char>)
    requires
        s.phase == PhaseModel::Head(HeadReaderModel::RequestLine),
        is_blank(line) || request_line(line) is None,
    ensures
        s.action() == (ActionModel::ReadLine { from: Peer::Client }),
        s.next(EventModel::Line(line)) == ended_with(
            s.target,
            if is_blank(line) {
                None
            } else {
                Some(ErrorModel::MalformedRequestLine)
            },
        ),
        SessionModel::start() == (SessionModel {
            target: None,
            phase: PhaseModel::Head(HeadReaderModel::RequestLine),
        }),
{
}

// ---------------------------------------------------------------------------
// Tunnels
// ---------------------------------------------------------------------------

/// Setting aside what the client sent ahead of the answer.
pub open spec fn setting_aside(pending: Seq<u8>) -> Step {
    Step { action: ActionModel::TakeBuffered, event: EventModel::Buffered(pending) }
}

/// Asking the SOCKS5 server for a connection.
pub open spec fn reaching(target: Seq<char>, event: EventModel) -> Step {
    Step { action: ActionModel::Reach { target }, event }
}

/// The steps of opening a tunnel to a target that is reached, and of keeping it
/// open until it is closed.
pub open spec fn tunneling(
    target: Seq<char>,
    pending: Seq<u8>,
    outcome: ConnectOutcomeModel,
) -> Seq<Step> {
    seq![setting_aside(pending)] + seq![reaching(target, EventModel::Done)] + seq![
        writing(Peer::Client, "HTTP/1.1 200 Connection Established\r\n\r\n"@),
    ] + (if pending.len() == 0 {
        Seq::empty()
    } else {
        seq![
            Step {
                action: ActionModel::WriteBytes { bytes: pending },
                event: EventModel::Done,
            },
        ]
    }) + seq![
        Step {
            action: ActionModel::OpenTunnel {
                counters: TransferStats {
                    client_to_upstream: pending.len() as u64,
                    upstream_to_client: 0,
                },
            },
            event: EventModel::TunnelClosed(outcome),
        },
    ]
}

/// A `CONNECT` request is served in just these steps: it is read, its target is
/// made known if it is the first, what the client sent ahead is set aside, the
/// SOCKS5 server is asked for the very target of the request line, the client is
/// told, what was set aside is sent on, and the tunnel is open. The outcome of
/// the tunnel is that of the connection.
pub proof fn law_connect_request_is_served(
    s: SessionModel,
    q: RequestText,
    pending: Seq<u8>,
    outcome: ConnectOutcomeModel,
)
    requires
        s.phase == PhaseModel::Head(HeadReaderModel::RequestLine),
        is_request(q),
        upper(q.method) == "CONNECT"@,
    ensures
        follows(s, asking(s.target, q) + tunneling(q.target, pending, outcome)),
        behind(s, asking(s.target, q) + tunneling(q.target, pending, outcome)).outcome() == Some(
            ProxyOutcomeModel {
                target: known_target(s.target, q.target),
                transfer: outcome.transfer,
                error: outcome.error,
            },
        ),
{
    let steps = tunneling(q.target, pending, outcome);
    lemma_asking(s, q);
    let s0 = behind(s, asking(s.target, q));
    let s1 = s0.next(EventModel::Buffered(pending));
    let s2 = s1.next(EventModel::Done);
    let s3 = s2.next(EventModel::Done);
    lemma_one(s0, steps[0]);
    lemma_one(s1, steps[1]);
    lemma_one(s2, steps[2]);
    lemma_concat(s0, seq![steps[0]], seq![steps[1]]);
    lemma_concat(s0, seq![steps[0]] + seq![steps[1]], seq![steps[2]]);
    let front = seq![steps[0]] + seq![steps[1]] + seq![steps[2]];
    if pending.len() == 0 {
        lemma_one(s3, steps[3]);
        lemma_concat(s0, front, seq![steps[3]]);
        assert(steps =~= front + seq![steps[3]]);
    } else {
        let s4 = s3.next(EventModel::Done);
        lemma_one(s3, steps[3]);
        lemma_one(s4, steps[4]);
        lemma_concat(s0, front, seq![steps[3]]);
        lemma_concat(s0, front + seq![steps[3]], seq![steps[4]]);
        assert(steps =~= front + seq![steps[3]] + seq![steps[4]]);
    }
    lemma_concat(s, asking(s.target, q), steps);
}

/// A `CONNECT` request whose target is not reached is answered with
/// `502 Bad Gateway`, and ends the connection with the target and the reason.
pub proof fn law_connect_request_is_refused(
    s: SessionModel,
    q: RequestText,
    pending: Seq<u8>,
    reason: Seq<char>,
)
    requires
        s.phase == PhaseModel::Head(HeadReaderModel::RequestLine),
        is_request(q),
        upper(q.method) == "CONNECT"@,
    ensures
        ({
            let steps = asking(s.target, q) + (seq![setting_aside(pending)] + seq![
                reaching(q.target, EventModel::Failed(reason)),
            ] + seq![writing(Peer::Client, "HTTP/1.1 502 Bad Gateway\r\n\r\n"@)]);
            &&& follows(s, steps)
            &&& behind(s, steps) == ended_with(
                known_target(s.target, q.target),
                Some(ErrorModel::SocksConnect { target: q.target, reason }),
            )
        }),
{
    let a = setting_aside(pending);
    let b = reaching(q.target, EventModel::Failed(reason));
    let c = writing(Peer::Client, "HTTP/1.1 502 Bad Gateway\r\n\r\n"@);
    lemma_asking(s, q);
    let s0 = behind(s, asking(s.target, q));
    let s1 = s0.next(EventModel::Buffered(pending));
    let s2 = s1.next(EventModel::Failed(reason));
    lemma_one(s0, a);
    lemma_one(s1, b);
    lemma_one(s2, c);
    lemma_concat(s0, seq![a], seq![b]);
    lemma_concat(s0, seq![a] + seq![b], seq![c]);
    lemma_concat(s, asking(s.target, q), seq![a] + seq![b] + seq![c]);
}

// ---------------------------------------------------------------------------
// Any event
// ---------------------------------------------------------------------------

/// An event that is no answer to what is to be done changes nothing.
pub proof fn law_what_is_no_answer_changes_nothing(s: SessionModel, event: EventModel)
    requires
        s.valid(),
        !answers(s.action(), event),
    ensures
        s.next(event) == s,
{
}

/// Every event can be handed over, but for one: that the line in front of a chunk
/// was passed on whose length, with its line end, does not fit in 64 bits.
pub proof fn law_only_oversized_chunks_are_not_accepted(s: SessionModel, event: EventModel)
    requires
        s.valid(),
    ensures
        !s.in_range(event) ==> {
            &&& event is Done
            &&& s.action() is Write
            &&& chunk_size(s.action()->Write_text) is Some
            &&& chunk_size(s.action()->Write_text).unwrap() + 2 > 0xffff_ffff_ffff_ffff
        },
{
}

/// A connection adds to the counters of the whole run only what it sends on ahead
/// of a tunnel, and that when it was sent.
pub proof fn law_only_bytes_sent_ahead_are_counted(
    s: SessionModel,
    event: EventModel,
    stats: RuntimeModel,
)
    requires
        s.valid(),
    ensures
        s.action() is WriteBytes && event is Done ==> s.next_stats(event, stats) == (RuntimeModel {
            tx: (stats.tx + (s.action()->bytes.len() as u64)) % 0x1_0000_0000_0000_0000,
            ..stats
        }),
        !(s.action() is WriteBytes && event is Done) ==> s.next_stats(event, stats) == stats,
{
}

} // verus!
