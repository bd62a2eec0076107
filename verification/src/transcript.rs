//! What goes over the wire in the course of an exchange.

use crate::body::{chunk_size, BodyModel, BodyStateModel};
use crate::exchange::{HttpModel, HttpStateModel};
use crate::header::{framing, BodyFraming};
use crate::protocol::{is_blank, ActionModel, EventModel, Peer};
use crate::relay::{client_headers, RelayModel, RelayStateModel};
use crate::request::{upstream_head, wants_close, HeadModel};
use crate::status::{ends_by_itself, has_body};
use vstd::prelude::*;

verus! {

// ---------------------------------------------------------------------------
// Runs
// ---------------------------------------------------------------------------

/// A state that waits for an event.
pub trait Machine: Sized {
    /// What is to be done next.
    spec fn wanted(self) -> ActionModel;

    /// The event can be handed over.
    spec fn admits(self, event: EventModel) -> bool;

    /// The state after the event.
    spec fn advanced(self, event: EventModel) -> Self;
}

impl Machine for BodyModel {
    open spec fn wanted(self) -> ActionModel {
        self.action()
    }

    open spec fn admits(self, event: EventModel) -> bool {
        self.in_range(event)
    }

    open spec fn advanced(self, event: EventModel) -> BodyModel {
        self.next(event)
    }
}

impl Machine for RelayModel {
    open spec fn wanted(self) -> ActionModel {
        self.action()
    }

    open spec fn admits(self, event: EventModel) -> bool {
        self.in_range(event)
    }

    open spec fn advanced(self, event: EventModel) -> RelayModel {
        self.next(event)
    }
}

impl Machine for HttpModel {
    open spec fn wanted(self) -> ActionModel {
        self.action()
    }

    open spec fn admits(self, event: EventModel) -> bool {
        self.in_range(event)
    }

    open spec fn advanced(self, event: EventModel) -> HttpModel {
        self.next(event)
    }
}

/// The state after a sequence of events.
pub open spec fn run<M: Machine>(m: M, events: Seq<EventModel>) -> M
    decreases events.len(),
{
    if events.len() == 0 {
        m
    } else {
        run(m.advanced(events[0]), events.drop_first())
    }
}

/// Each of the events can be handed over in its turn.
pub open spec fn admitted<M: Machine>(m: M, events: Seq<EventModel>) -> bool
    decreases events.len(),
{
    events.len() > 0 ==> m.admits(events[0]) && admitted(
        m.advanced(events[0]),
        events.drop_first(),
    )
}

/// Something that went over the wire.
pub enum Piece {
    /// A text.
    Text(Seq<char>),
    /// So many bytes of the other end, or fewer if its input ends before.
    Bytes(u64),
    /// All bytes of the other end.
    Rest,
    /// Just these bytes.
    Raw(Seq<u8>),
}

/// What an event shows to have gone to one end.
pub open spec fn sent_now(action: ActionModel, event: EventModel, to: Peer) -> Seq<Piece> {
    match (action, event) {
        (ActionModel::Write { to: end, text }, EventModel::Done) => if end == to {
            seq![Piece::Text(text)]
        } else {
            Seq::empty()
        },
        (ActionModel::Copy { to: end, limit, .. }, EventModel::Done) => if end == to {
            match limit {
                Some(n) => seq![Piece::Bytes(n)],
                None => seq![Piece::Rest],
            }
        } else {
            Seq::empty()
        },
        (ActionModel::WriteBytes { bytes }, EventModel::Done) => if to == Peer::Upstream {
            seq![Piece::Raw(bytes)]
        } else {
            Seq::empty()
        },
        _ => Seq::empty(),
    }
}

/// The line that an event shows to have come from one end.
pub open spec fn read_now(action: ActionModel, event: EventModel, from: Peer) -> Seq<Seq<char>> {
    match (action, event) {
        (ActionModel::ReadLine { from: end }, EventModel::Line(line)) => if end == from {
            seq![line]
        } else {
            Seq::empty()
        },
        _ => Seq::empty(),
    }
}

/// What went to one end in the course of a run.
pub open spec fn sent<M: Machine>(m: M, events: Seq<EventModel>, to: Peer) -> Seq<Piece>
    decreases events.len(),
{
    if events.len() == 0 {
        Seq::empty()
    } else {
        sent_now(m.wanted(), events[0], to) + sent(
            m.advanced(events[0]),
            events.drop_first(),
            to,
        )
    }
}

/// The lines that came from one end in the course of a run.
pub open spec fn lines_read<M: Machine>(m: M, events: Seq<EventModel>, from: Peer) -> Seq<Seq<char>>
    decreases events.len(),
{
    if events.len() == 0 {
        Seq::empty()
    } else {
        read_now(m.wanted(), events[0], from) + lines_read(
            m.advanced(events[0]),
            events.drop_first(),
            from,
        )
    }
}

/// The texts among the pieces.
pub open spec fn texts_in(pieces: Seq<Piece>) -> Seq<Seq<char>>
    decreases pieces.len(),
{
    if pieces.len() == 0 {
        Seq::empty()
    } else {
        (match pieces[0] {
            Piece::Text(text) => seq![text],
            _ => Seq::empty(),
        }) + texts_in(pieces.drop_first())
    }
}

// ---------------------------------------------------------------------------
// Bodies
// ---------------------------------------------------------------------------

/// The pieces are the lines behind the last chunk: none is blank but the last.
pub open spec fn are_trailers(pieces: Seq<Piece>) -> bool
    decreases pieces.len(),
{
    pieces.len() > 0 && match pieces[0] {
        Piece::Text(line) => if is_blank(line) {
            pieces.len() == 1
        } else {
            are_trailers(pieces.drop_first())
        },
        _ => false,
    }
}

/// The pieces are the chunks of a body: in front of each is a line with its
/// size, behind it a line end of two bytes; a size of zero stands in front of
/// the lines behind the last chunk.
pub open spec fn are_chunks(pieces: Seq<Piece>) -> bool
    decreases pieces.len(),
{
    pieces.len() > 0 && match pieces[0] {
        Piece::Text(line) => match chunk_size(line) {
            Some(n) => if n == 0 {
                are_trailers(pieces.drop_first())
            } else {
                &&& pieces.len() > 1
                &&& pieces[1] matches Piece::Bytes(limit)
                &&& limit == n + 2
                &&& are_chunks(pieces.skip(2))
            },
            None => false,
        },
        _ => false,
    }
}

/// The pieces are a body of the given extent.
pub open spec fn are_body(framing: BodyFraming, pieces: Seq<Piece>) -> bool {
    if framing.chunked {
        are_chunks(pieces)
    } else {
        match framing.content_length {
            Some(n) => pieces == seq![Piece::Bytes(n)],
            None => pieces.len() == 0,
        }
    }
}

/// The pieces are what is still to be sent of a body, and the lines what is
/// still to be read of it.
spec fn is_rest_of_body(b: BodyModel, pieces: Seq<Piece>, lines: Seq<Seq<char>>) -> bool {
    match b.state {
        BodyStateModel::Size => are_chunks(pieces) && texts_in(pieces) == lines,
        BodyStateModel::ForwardSize(line) => {
            &&& are_chunks(pieces)
            &&& pieces[0] == Piece::Text(line)
            &&& texts_in(pieces) == seq![line] + lines
        },
        BodyStateModel::Chunk(n) => {
            &&& pieces.len() > 0
            &&& pieces[0] == Piece::Bytes(n)
            &&& are_chunks(pieces.drop_first())
            &&& texts_in(pieces) == lines
        },
        BodyStateModel::Trailer => are_trailers(pieces) && texts_in(pieces) == lines,
        BodyStateModel::ForwardTrailer(line) => {
            &&& are_trailers(pieces)
            &&& pieces[0] == Piece::Text(line)
            &&& texts_in(pieces) == seq![line] + lines
        },
        BodyStateModel::Fixed(n) => pieces == seq![Piece::Bytes(n)] && lines.len() == 0,
        BodyStateModel::Complete => pieces.len() == 0 && lines.len() == 0,
        BodyStateModel::Broken(_) => false,
    }
}

/// If the rest after an event is the rest of a body, so is the rest before it.
proof fn lemma_body_step(
    b: BodyModel,
    event: EventModel,
    pieces: Seq<Piece>,
    lines: Seq<Seq<char>>,
)
    requires
        b.in_range(event),
        is_rest_of_body(b.next(event), pieces, lines),
    ensures
        is_rest_of_body(
            b,
            sent_now(b.action(), event, b.to) + pieces,
            read_now(b.action(), event, b.from) + lines,
        ),
{
    let s = sent_now(b.action(), event, b.to);
    let r = read_now(b.action(), event, b.from);
    let all = s + pieces;
    assert(Seq::<Piece>::empty() + pieces =~= pieces);
    assert(Seq::<Seq<char>>::empty() + lines =~= lines);
    if s.len() == 1 {
        assert(all.drop_first() =~= pieces);
        assert(texts_in(all) =~= (match s[0] {
            Piece::Text(text) => seq![text],
            _ => Seq::empty(),
        }) + texts_in(pieces));
        if pieces.len() > 0 {
            assert(all.skip(2) =~= pieces.drop_first());
        }
    }
}

/// A body is passed on unchanged: what went to the receiver in a run that
/// passed on all of it is a body of the announced extent, and its texts are the
/// lines that were read, in order.
pub proof fn law_body_is_passed_on_unchanged(
    from: Peer,
    to: Peer,
    framing: BodyFraming,
    events: Seq<EventModel>,
)
    requires
        admitted(BodyModel::start(from, to, framing), events),
        run(BodyModel::start(from, to, framing), events).state is Complete,
    ensures
        are_body(framing, sent(BodyModel::start(from, to, framing), events, to)),
        texts_in(sent(BodyModel::start(from, to, framing), events, to)) == lines_read(
            BodyModel::start(from, to, framing),
            events,
            from,
        ),
{
    let b = BodyModel::start(from, to, framing);
    lemma_body_run(b, events);
    if !framing.chunked {
        if framing.content_length is Some {
            let n = framing.content_length->0;
            let pieces = seq![Piece::Bytes(n)];
            reveal_with_fuel(texts_in, 2);
            assert(texts_in(pieces) =~= Seq::empty());
        }
        assert(lines_read(b, events, from) =~= Seq::empty());
    }
}

/// A line that is read of a body is passed on before anything else is done.
pub proof fn law_line_is_passed_on_at_once(b: BodyModel, line: Seq<char>)
    requires
        b.action() is ReadLine,
    ensures
        b.action() == (ActionModel::ReadLine { from: b.from }),
        b.next(EventModel::Line(line)).action() == (ActionModel::Write { to: b.to, text: line }),
{
}

proof fn lemma_body_run(b: BodyModel, events: Seq<EventModel>)
    requires
        admitted(b, events),
        run(b, events).state is Complete,
    ensures
        is_rest_of_body(b, sent(b, events, b.to), lines_read(b, events, b.from)),
    decreases events.len(),
{
    if events.len() > 0 {
        let next = b.next(events[0]);
        let rest = events.drop_first();
        lemma_body_run(next, rest);
        lemma_body_step(b, events[0], sent(next, rest, b.to), lines_read(next, rest, b.from));
    }
}

// ---------------------------------------------------------------------------
// Responses
// ---------------------------------------------------------------------------

/// The position of the first blank line, or the number of lines.
pub open spec fn first_blank(lines: Seq<Seq<char>>) -> int
    decreases lines.len(),
{
    if lines.len() == 0 || is_blank(lines[0]) {
        0
    } else {
        1 + first_blank(lines.drop_first())
    }
}

/// The bounds of `first_blank`.
proof fn lemma_first_blank(lines: Seq<Seq<char>>)
    ensures
        0 <= first_blank(lines) <= lines.len(),
    decreases lines.len(),
{
    if lines.len() > 0 {
        lemma_first_blank(lines.drop_first());
    }
}

/// The header lines of a message: those between its first line and the first
/// blank line behind that.
pub open spec fn header_lines(lines: Seq<Seq<char>>) -> Seq<Seq<char>> {
    lines.skip(1).take(first_blank(lines.skip(1)))
}

/// The lines of a message behind its head.
pub open spec fn lines_behind_head(lines: Seq<Seq<char>>) -> Seq<Seq<char>> {
    lines.skip(first_blank(lines.skip(1)) + 2)
}

/// The pieces are the body of a response: nothing, a body of the announced
/// extent, or all that the upstream server sends.
pub open spec fn are_response_body(
    method: Seq<char>,
    status_line: Seq<char>,
    headers: Seq<Seq<char>>,
    pieces: Seq<Piece>,
) -> bool {
    let framing = framing(headers);
    if !has_body(method, status_line) {
        pieces.len() == 0
    } else if framing.chunked || framing.content_length is Some {
        are_body(framing, pieces)
    } else {
        pieces == seq![Piece::Rest]
    }
}

/// The pieces are what the client gets of a response, given the lines that the
/// upstream server sent: the status line as it is, the headers that are passed
/// on, and the body as it is.
pub open spec fn are_response(
    method: Seq<char>,
    lines: Seq<Seq<char>>,
    pieces: Seq<Piece>,
) -> bool {
    &&& lines.len() > 0
    &&& lines[0].len() > 0
    &&& first_blank(lines.skip(1)) < lines.len() - 1
    &&& pieces.len() >= 2
    &&& pieces[0] == Piece::Text(lines[0])
    &&& pieces[1] == Piece::Text(client_headers(header_lines(lines)))
    &&& are_response_body(method, lines[0], header_lines(lines), pieces.skip(2))
    &&& texts_in(pieces.skip(2)) == lines_behind_head(lines)
}

/// What is still to be sent and read of a response, once its head was read.
spec fn is_rest_behind_head(
    method: Seq<char>,
    status_line: Seq<char>,
    headers: Seq<Seq<char>>,
    reuse: bool,
    pieces: Seq<Piece>,
    lines: Seq<Seq<char>>,
) -> bool {
    &&& are_response_body(method, status_line, headers, pieces)
    &&& texts_in(pieces) == lines
    &&& reuse == ends_by_itself(method, status_line, framing(headers))
}

/// The pieces are what is still to be sent of a response that ends with
/// `reuse`, and the lines what is still to be read of it.
spec fn is_rest_of_response(
    r: RelayModel,
    reuse: bool,
    pieces: Seq<Piece>,
    lines: Seq<Seq<char>>,
) -> bool {
    match r.state {
        RelayStateModel::Status => {
            &&& are_response(r.method, lines, pieces)
            &&& reuse == ends_by_itself(r.method, lines[0], framing(header_lines(lines)))
        },
        RelayStateModel::ForwardStatus { status_line } => {
            let k = first_blank(lines);
            let headers = lines.take(k);
            &&& k < lines.len()
            &&& pieces.len() >= 2
            &&& pieces[0] == Piece::Text(status_line)
            &&& pieces[1] == Piece::Text(client_headers(headers))
            &&& is_rest_behind_head(
                r.method,
                status_line,
                headers,
                reuse,
                pieces.skip(2),
                lines.skip(k + 1),
            )
        },
        RelayStateModel::Headers { status_line, headers } => {
            let k = first_blank(lines);
            let all = headers + lines.take(k);
            &&& k < lines.len()
            &&& pieces.len() >= 1
            &&& pieces[0] == Piece::Text(client_headers(all))
            &&& is_rest_behind_head(
                r.method,
                status_line,
                all,
                reuse,
                pieces.skip(1),
                lines.skip(k + 1),
            )
        },
        RelayStateModel::ForwardHead { status_line, headers } => {
            &&& pieces.len() >= 1
            &&& pieces[0] == Piece::Text(client_headers(headers))
            &&& is_rest_behind_head(r.method, status_line, headers, reuse, pieces.skip(1), lines)
        },
        RelayStateModel::Body { body, reuse: q } => q == reuse && is_rest_of_body(
            body,
            pieces,
            lines,
        ),
        RelayStateModel::Drain { reuse: q } => {
            &&& q == reuse
            &&& pieces == seq![Piece::Rest]
            &&& lines.len() == 0
        },
        RelayStateModel::Complete { reuse: q } => {
            &&& q == reuse
            &&& pieces.len() == 0
            &&& lines.len() == 0
        },
        RelayStateModel::Broken(_) => false,
    }
}

/// A body of known extent has the texts of its lines.
proof fn lemma_fixed_body(n: u64)
    ensures
        texts_in(seq![Piece::Bytes(n)]) == Seq::<Seq<char>>::empty(),
        texts_in(seq![Piece::Rest]) == Seq::<Seq<char>>::empty(),
{
    reveal_with_fuel(texts_in, 2);
    assert(texts_in(seq![Piece::Bytes(n)]) =~= Seq::empty());
    assert(texts_in(seq![Piece::Rest]) =~= Seq::empty());
}

/// If the rest after an event is the rest of a response, so is the rest before
/// it.
proof fn lemma_response_step(
    r: RelayModel,
    event: EventModel,
    reuse: bool,
    pieces: Seq<Piece>,
    lines: Seq<Seq<char>>,
)
    requires
        r.in_range(event),
        r.valid(),
        is_rest_of_response(r.next(event), reuse, pieces, lines),
    ensures
        is_rest_of_response(
            r,
            reuse,
            sent_now(r.action(), event, Peer::Client) + pieces,
            read_now(r.action(), event, Peer::Upstream) + lines,
        ),
{
    let s = sent_now(r.action(), event, Peer::Client);
    let l = read_now(r.action(), event, Peer::Upstream);
    let all = s + pieces;
    let ls = l + lines;
    lemma_first_blank(lines);
    assert(Seq::<Piece>::empty() + pieces =~= pieces);
    assert(Seq::<Seq<char>>::empty() + lines =~= lines);
    match (r.state, event) {
        (RelayStateModel::Status, EventModel::Line(line)) => {
            assert(ls.skip(1) =~= lines);
            if line.len() > 0 {
                assert(header_lines(ls) =~= lines.take(first_blank(lines)));
                assert(lines_behind_head(ls) =~= lines.skip(first_blank(lines) + 1));
            }
        },
        (RelayStateModel::ForwardStatus { status_line }, EventModel::Done) => {
            let k = first_blank(lines);
            assert(Seq::<Seq<char>>::empty() + lines.take(k) =~= lines.take(k));
            assert(all.skip(2) =~= pieces.skip(1));
        },
        (RelayStateModel::Headers { status_line, headers }, EventModel::Line(line)) => {
            assert(ls.drop_first() =~= lines);
            if is_blank(line) {
                assert(ls.take(0) =~= Seq::empty());
                assert(headers + ls.take(0) =~= headers);
                assert(ls.skip(1) =~= lines);
            } else {
                let k = first_blank(lines);
                assert(headers + ls.take(k + 1) =~= headers.push(line) + lines.take(k));
                assert(ls.skip(k + 2) =~= lines.skip(k + 1));
            }
        },
        (RelayStateModel::ForwardHead { status_line, headers }, EventModel::Done) => {
            assert(all.skip(1) =~= pieces);
            if framing(headers).content_length is Some {
                lemma_fixed_body(framing(headers).content_length->0);
            }
            lemma_fixed_body(0);
            assert(lines.len() == 0 ==> lines =~= Seq::empty());
            assert(pieces.len() == 0 ==> texts_in(pieces) =~= lines || lines.len() > 0);
        },
        (RelayStateModel::Body { body, reuse: q }, event) => {
            lemma_body_step(body, event, pieces, lines);
        },
        _ => {},
    }
}

proof fn lemma_response_run(r: RelayModel, events: Seq<EventModel>)
    requires
        r.valid(),
        admitted(r, events),
        run(r, events).state is Complete,
    ensures
        is_rest_of_response(
            r,
            run(r, events).state->Complete_reuse,
            sent(r, events, Peer::Client),
            lines_read(r, events, Peer::Upstream),
        ),
    decreases events.len(),
{
    if events.len() > 0 {
        let next = r.next(events[0]);
        let rest = events.drop_first();
        lemma_response_run(next, rest);
        lemma_response_step(
            r,
            events[0],
            run(r, events).state->Complete_reuse,
            sent(next, rest, Peer::Client),
            lines_read(next, rest, Peer::Upstream),
        );
    }
}

/// A response is passed on as it came, but for the headers that concern one
/// connection only; and the client can tell where it ends if and only if the
/// response says so itself.
pub proof fn law_response_is_passed_on(method: Seq<char>, events: Seq<EventModel>)
    requires
        admitted(RelayModel::start(method), events),
        run(RelayModel::start(method), events).state is Complete,
    ensures
        ({
            let start = RelayModel::start(method);
            let lines = lines_read(start, events, Peer::Upstream);
            &&& are_response(method, lines, sent(start, events, Peer::Client))
            &&& run(start, events).state->Complete_reuse == ends_by_itself(
                method,
                lines[0],
                framing(header_lines(lines)),
            )
        }),
{
    lemma_response_run(RelayModel::start(method), events);
}

// ---------------------------------------------------------------------------
// Exchanges
// ---------------------------------------------------------------------------

/// The pieces are what the upstream server gets of a request, given the lines
/// behind the head that the client sent: a head of its own, and the body as it
/// is.
pub open spec fn are_request(
    head: HeadModel,
    lines: Seq<Seq<char>>,
    pieces: Seq<Piece>,
) -> bool {
    &&& pieces.len() >= 1
    &&& pieces[0] == Piece::Text(upstream_head(head))
    &&& are_body(framing(head.headers), pieces.skip(1))
    &&& texts_in(pieces.skip(1)) == lines
}

/// What is still to be sent and read in an exchange whose response ends with
/// `reuse`: to and from the upstream server, and to and from the client.
spec fn is_rest_of_exchange(
    h: HttpModel,
    reuse: bool,
    up: Seq<Piece>,
    client_lines: Seq<Seq<char>>,
    down: Seq<Piece>,
    upstream_lines: Seq<Seq<char>>,
) -> bool {
    let response = is_rest_of_response(
        RelayModel::start(h.head.method),
        reuse,
        down,
        upstream_lines,
    );
    match h.state {
        HttpStateModel::Dialing => are_request(h.head, client_lines, up) && response,
        HttpStateModel::Sending => are_request(h.head, client_lines, up) && response,
        HttpStateModel::Body(body) => is_rest_of_body(body, up, client_lines) && response,
        HttpStateModel::Closing => {
            &&& up.len() == 0
            &&& client_lines.len() == 0
            &&& response
        },
        HttpStateModel::Relaying(relay) => {
            &&& up.len() == 0
            &&& client_lines.len() == 0
            &&& is_rest_of_response(relay, reuse, down, upstream_lines)
        },
        HttpStateModel::Complete { keep } => {
            &&& up.len() == 0
            &&& client_lines.len() == 0
            &&& down.len() == 0
            &&& upstream_lines.len() == 0
        },
        HttpStateModel::Broken(_) => false,
    }
}

/// A body under way that goes one way uses nothing of the other way.
proof fn lemma_body_uses_one_way(b: BodyModel, event: EventModel)
    requires
        b.from != b.to,
    ensures
        sent_now(b.action(), event, b.from) == Seq::<Piece>::empty(),
        read_now(b.action(), event, b.to) == Seq::<Seq<char>>::empty(),
{
}

/// The exchange after an event is still as it should be.
pub proof fn lemma_exchange_stays_valid(h: HttpModel, event: EventModel)
    requires
        h.valid(),
    ensures
        h.next(event).valid(),
        h.next(event).head == h.head,
{
    match h.state {
        HttpStateModel::Relaying(relay) => {
            lemma_response_stays_valid(relay, event);
        },
        _ => {},
    }
}

/// The passing on of a response after an event is still as it should be.
pub proof fn lemma_response_stays_valid(r: RelayModel, event: EventModel)
    requires
        r.valid(),
    ensures
        r.next(event).valid(),
        r.next(event).method == r.method,
{
}

/// If the rest after an event is the rest of an exchange, so is the rest before
/// it.
proof fn lemma_exchange_step(
    h: HttpModel,
    event: EventModel,
    reuse: bool,
    up: Seq<Piece>,
    client_lines: Seq<Seq<char>>,
    down: Seq<Piece>,
    upstream_lines: Seq<Seq<char>>,
)
    requires
        h.in_range(event),
        h.valid(),
        is_rest_of_exchange(h.next(event), reuse, up, client_lines, down, upstream_lines),
        h.state is Relaying && h.next(event).state is Complete ==> {
            let relay = h.state->Relaying_0.next(event);
            relay.state is Complete && relay.state->Complete_reuse == reuse
        },
    ensures
        is_rest_of_exchange(
            h,
            reuse,
            sent_now(h.action(), event, Peer::Upstream) + up,
            read_now(h.action(), event, Peer::Client) + client_lines,
            sent_now(h.action(), event, Peer::Client) + down,
            read_now(h.action(), event, Peer::Upstream) + upstream_lines,
        ),
{
    let next = h.next(event);
    assert(Seq::<Piece>::empty() + up =~= up);
    assert(Seq::<Piece>::empty() + down =~= down);
    assert(Seq::<Seq<char>>::empty() + client_lines =~= client_lines);
    assert(Seq::<Seq<char>>::empty() + upstream_lines =~= upstream_lines);
    match (h.state, event) {
        (HttpStateModel::Sending, EventModel::Done) => {
            let all = seq![Piece::Text(upstream_head(h.head))] + up;
            assert(all.skip(1) =~= up);
            let f = framing(h.head.headers);
            if f.content_length is Some {
                lemma_fixed_body(f.content_length->0);
            }
            if client_lines.len() == 0 {
                assert(client_lines =~= Seq::empty());
            }
            if up.len() == 0 {
                assert(texts_in(up) =~= Seq::empty());
            }
        },
        (HttpStateModel::Body(body), event) => {
            lemma_body_step(body, event, up, client_lines);
            lemma_body_uses_one_way(body, event);
        },
        (HttpStateModel::Relaying(relay), event) => {
            lemma_response_step(relay, event, reuse, down, upstream_lines);
            if relay.state is Body {
                lemma_body_uses_one_way(relay.state->Body_body, event);
            }
        },
        _ => {},
    }
}

proof fn lemma_exchange_run(h: HttpModel, events: Seq<EventModel>) -> (reuse: bool)
    requires
        h.valid(),
        admitted(h, events),
        run(h, events).state is Complete,
    ensures
        is_rest_of_exchange(
            h,
            reuse,
            sent(h, events, Peer::Upstream),
            lines_read(h, events, Peer::Client),
            sent(h, events, Peer::Client),
            lines_read(h, events, Peer::Upstream),
        ),
        !(h.state is Complete) ==> run(h, events).state->Complete_keep == (reuse && !wants_close(
            h.head,
        )),
        h.state is Complete ==> run(h, events).state == h.state,
    decreases events.len(),
{
    if events.len() == 0 {
        false
    } else {
        let next = h.next(events[0]);
        let rest = events.drop_first();
        lemma_exchange_stays_valid(h, events[0]);
        let later = lemma_exchange_run(next, rest);
        let reuse = if h.state is Relaying && next.state is Complete {
            h.state->Relaying_0.next(events[0]).state->Complete_reuse
        } else {
            later
        };
        lemma_exchange_step(
            h,
            events[0],
            reuse,
            sent(next, rest, Peer::Upstream),
            lines_read(next, rest, Peer::Client),
            sent(next, rest, Peer::Client),
            lines_read(next, rest, Peer::Upstream),
        );
        reuse
    }
}

/// An exchange that is brought to its end sends to the upstream server the head
/// of the request, made fit for that server, and the body as it came from the
/// client; it sends to the client the response as it came from the upstream
/// server, but for the headers that concern one connection only. The client may
/// go on if and only if the response says itself where it ends and the client
/// did not ask for the connection to be closed.
pub proof fn law_exchange_passes_on_request_and_response(
    head: HeadModel,
    events: Seq<EventModel>,
)
    requires
        admitted(HttpModel::start(head), events),
        run(HttpModel::start(head), events).state is Complete,
    ensures
        ({
            let start = HttpModel::start(head);
            let lines = lines_read(start, events, Peer::Upstream);
            &&& are_request(
                head,
                lines_read(start, events, Peer::Client),
                sent(start, events, Peer::Upstream),
            )
            &&& are_response(head.method, lines, sent(start, events, Peer::Client))
            &&& run(start, events).state->Complete_keep == (ends_by_itself(
                head.method,
                lines[0],
                framing(header_lines(lines)),
            ) && !wants_close(head))
        }),
{
    let reuse = lemma_exchange_run(HttpModel::start(head), events);
}

// ---------------------------------------------------------------------------
// Runs that need not come to an end
// ---------------------------------------------------------------------------

/// The texts among one piece at most and those behind it.
proof fn lemma_texts_in_concat(first: Seq<Piece>, rest: Seq<Piece>)
    requires
        first.len() <= 1,
    ensures
        texts_in(first + rest) == texts_in(first) + texts_in(rest),
{
    if first.len() == 0 {
        assert(first + rest =~= rest);
        assert(texts_in(first) + texts_in(rest) =~= texts_in(rest));
    } else {
        assert((first + rest).drop_first() =~= rest);
        assert(first.drop_first() =~= Seq::empty());
        reveal_with_fuel(texts_in, 2);
        assert(texts_in(first + rest) =~= texts_in(first) + texts_in(rest));
    }
}

/// A common beginning does not matter for what begins with what.
proof fn lemma_prefix_behind(common: Seq<Seq<char>>, a: Seq<Seq<char>>, b: Seq<Seq<char>>)
    requires
        a.is_prefix_of(b),
    ensures
        (common + a).is_prefix_of(common + b),
{
    assert((common + b).subrange(0, (common + a).len() as int) =~= common + b.subrange(
        0,
        a.len() as int,
    ));
}

/// The texts that a body still sends, given the lines that are still to be read
/// of it, if it is passed on to its end.
spec fn due_of_body(b: BodyModel, lines: Seq<Seq<char>>) -> Seq<Seq<char>> {
    match b.state {
        BodyStateModel::ForwardSize(line) => seq![line] + lines,
        BodyStateModel::ForwardTrailer(line) => seq![line] + lines,
        BodyStateModel::Complete => Seq::empty(),
        BodyStateModel::Broken(_) => Seq::empty(),
        _ => lines,
    }
}

/// If no more than what is due is sent after an event, no more than what is due
/// is sent before it.
proof fn lemma_body_sends_what_is_due(
    b: BodyModel,
    event: EventModel,
    pieces: Seq<Piece>,
    lines: Seq<Seq<char>>,
)
    requires
        texts_in(pieces).is_prefix_of(due_of_body(b.next(event), lines)),
    ensures
        texts_in(sent_now(b.action(), event, b.to) + pieces).is_prefix_of(
            due_of_body(b, read_now(b.action(), event, b.from) + lines),
        ),
{
    let s = sent_now(b.action(), event, b.to);
    let r = read_now(b.action(), event, b.from);
    lemma_texts_in_concat(s, pieces);
    lemma_fixed_body(0);
    assert(Seq::<Seq<char>>::empty() + lines =~= lines);
    assert(Seq::<Seq<char>>::empty() + texts_in(pieces) =~= texts_in(pieces));
    match (b.state, event) {
        (BodyStateModel::ForwardSize(line), EventModel::Done) => {
            lemma_one_text(line);
            assert(texts_in(pieces).is_prefix_of(lines));
            lemma_prefix_behind(seq![line], texts_in(pieces), lines);
        },
        (BodyStateModel::ForwardTrailer(line), EventModel::Done) => {
            lemma_one_text(line);
            assert(texts_in(pieces).is_prefix_of(lines));
            lemma_prefix_behind(seq![line], texts_in(pieces), lines);
        },
        (BodyStateModel::Chunk(n), EventModel::Done) => {
            lemma_fixed_body(n);
        },
        (BodyStateModel::Fixed(n), EventModel::Done) => {
            lemma_fixed_body(n);
        },
        _ => {},
    }
}

/// The text in a piece of text.
proof fn lemma_one_text(text: Seq<char>)
    ensures
        texts_in(seq![Piece::Text(text)]) == seq![text],
{
    reveal_with_fuel(texts_in, 2);
    assert(texts_in(seq![Piece::Text(text)]) =~= seq![text]);
}

/// The texts that the client gets of a response, given the lines that the
/// upstream server sent so far: the status line; then, if the head is complete,
/// the headers that are passed on and the lines behind the head.
pub open spec fn response_texts(lines: Seq<Seq<char>>) -> Seq<Seq<char>> {
    if lines.len() == 0 {
        Seq::empty()
    } else {
        seq![lines[0]] + texts_behind_status(Seq::empty(), lines.skip(1))
    }
}

/// The texts behind the status line, given the headers that were read already
/// and the lines that follow them.
pub open spec fn texts_behind_status(
    headers: Seq<Seq<char>>,
    lines: Seq<Seq<char>>,
) -> Seq<Seq<char>> {
    let k = first_blank(lines);
    if k < lines.len() {
        seq![client_headers(headers + lines.take(k))] + lines.skip(k + 1)
    } else {
        Seq::empty()
    }
}

/// The texts that are still due of a response.
spec fn due_of_response(r: RelayModel, lines: Seq<Seq<char>>) -> Seq<Seq<char>> {
    match r.state {
        RelayStateModel::Status => response_texts(lines),
        RelayStateModel::ForwardStatus { status_line } => seq![status_line] + texts_behind_status(
            Seq::empty(),
            lines,
        ),
        RelayStateModel::Headers { headers, .. } => texts_behind_status(headers, lines),
        RelayStateModel::ForwardHead { headers, .. } => seq![client_headers(headers)] + lines,
        RelayStateModel::Body { body, .. } => due_of_body(body, lines),
        _ => Seq::empty(),
    }
}

proof fn lemma_response_sends_what_is_due(
    r: RelayModel,
    event: EventModel,
    pieces: Seq<Piece>,
    lines: Seq<Seq<char>>,
)
    requires
        r.valid(),
        texts_in(pieces).is_prefix_of(due_of_response(r.next(event), lines)),
    ensures
        texts_in(sent_now(r.action(), event, Peer::Client) + pieces).is_prefix_of(
            due_of_response(r, read_now(r.action(), event, Peer::Upstream) + lines),
        ),
{
    let s = sent_now(r.action(), event, Peer::Client);
    let l = read_now(r.action(), event, Peer::Upstream);
    let ls = l + lines;
    let texts = texts_in(pieces);
    lemma_texts_in_concat(s, pieces);
    lemma_fixed_body(0);
    lemma_first_blank(lines);
    assert(Seq::<Seq<char>>::empty() + lines =~= lines);
    assert(Seq::<Seq<char>>::empty() + texts =~= texts);
    match (r.state, event) {
        (RelayStateModel::Status, EventModel::Line(line)) => {
            assert(ls.skip(1) =~= lines);
        },
        (RelayStateModel::ForwardStatus { status_line }, EventModel::Done) => {
            lemma_one_text(status_line);
            lemma_prefix_behind(
                seq![status_line],
                texts,
                texts_behind_status(Seq::empty(), lines),
            );
        },
        (RelayStateModel::Headers { status_line, headers }, EventModel::Line(line)) => {
            assert(ls.drop_first() =~= lines);
            if is_blank(line) {
                assert(headers + ls.take(0) =~= headers);
                assert(ls.skip(1) =~= lines);
            } else {
                let k = first_blank(lines);
                assert(first_blank(ls) == k + 1);
                if k < lines.len() {
                    assert(headers + ls.take(k + 1) =~= headers.push(line) + lines.take(k));
                    assert(ls.skip(k + 2) =~= lines.skip(k + 1));
                }
            }
        },
        (RelayStateModel::ForwardHead { status_line, headers }, EventModel::Done) => {
            lemma_one_text(client_headers(headers));
            assert(texts.is_prefix_of(lines));
            lemma_prefix_behind(seq![client_headers(headers)], texts, lines);
        },
        (RelayStateModel::Body { body, .. }, event) => {
            lemma_body_sends_what_is_due(body, event, pieces, lines);
        },
        _ => {},
    }
}

/// The texts that are still due to the upstream server in an exchange.
spec fn due_to_upstream(h: HttpModel, lines: Seq<Seq<char>>) -> Seq<Seq<char>> {
    match h.state {
        HttpStateModel::Dialing => seq![upstream_head(h.head)] + lines,
        HttpStateModel::Sending => seq![upstream_head(h.head)] + lines,
        HttpStateModel::Body(body) => due_of_body(body, lines),
        _ => Seq::empty(),
    }
}

/// The texts that are still due to the client in an exchange.
spec fn due_to_client(h: HttpModel, lines: Seq<Seq<char>>) -> Seq<Seq<char>> {
    match h.state {
        HttpStateModel::Relaying(relay) => due_of_response(relay, lines),
        HttpStateModel::Complete { .. } => Seq::empty(),
        HttpStateModel::Broken(_) => Seq::empty(),
        _ => response_texts(lines),
    }
}

proof fn lemma_exchange_sends_what_is_due(h: HttpModel, events: Seq<EventModel>)
    requires
        h.valid(),
    ensures
        texts_in(sent(h, events, Peer::Upstream)).is_prefix_of(
            due_to_upstream(h, lines_read(h, events, Peer::Client)),
        ),
        texts_in(sent(h, events, Peer::Client)).is_prefix_of(
            due_to_client(h, lines_read(h, events, Peer::Upstream)),
        ),
    decreases events.len(),
{
    if events.len() == 0 {
        assert(texts_in(Seq::<Piece>::empty()) =~= Seq::empty());
    } else {
        let event = events[0];
        let next = h.next(event);
        let rest = events.drop_first();
        let up = sent(next, rest, Peer::Upstream);
        let down = sent(next, rest, Peer::Client);
        let client_lines = lines_read(next, rest, Peer::Client);
        let upstream_lines = lines_read(next, rest, Peer::Upstream);
        lemma_exchange_stays_valid(h, event);
        lemma_exchange_sends_what_is_due(next, rest);
        lemma_texts_in_concat(sent_now(h.action(), event, Peer::Upstream), up);
        lemma_texts_in_concat(sent_now(h.action(), event, Peer::Client), down);
        assert(texts_in(Seq::<Piece>::empty()) =~= Seq::empty());
        assert(Seq::<Seq<char>>::empty() + client_lines =~= client_lines);
        assert(Seq::<Seq<char>>::empty() + upstream_lines =~= upstream_lines);
        assert(Seq::<Seq<char>>::empty() + texts_in(up) =~= texts_in(up));
        assert(Seq::<Seq<char>>::empty() + texts_in(down) =~= texts_in(down));
        match (h.state, event) {
            (HttpStateModel::Sending, EventModel::Done) => {
                lemma_one_text(upstream_head(h.head));
                assert(texts_in(up).is_prefix_of(client_lines));
                lemma_prefix_behind(seq![upstream_head(h.head)], texts_in(up), client_lines);
            },
            (HttpStateModel::Body(body), event) => {
                lemma_body_sends_what_is_due(body, event, up, client_lines);
                lemma_body_uses_one_way(body, event);
            },
            (HttpStateModel::Relaying(relay), event) => {
                lemma_response_sends_what_is_due(relay, event, down, upstream_lines);
                if relay.state is Body {
                    lemma_body_uses_one_way(relay.state->Body_body, event);
                }
            },
            _ => {},
        }
    }
}

/// However far an exchange has come, and however it ended: the upstream server
/// was sent no texts but the head made for it and the lines that the client sent
/// behind its own head, and the client was sent no texts but the status line,
/// the headers that are passed on and the lines behind them, all in order.
pub proof fn law_nothing_else_is_ever_sent(head: HeadModel, events: Seq<EventModel>)
    ensures
        texts_in(sent(HttpModel::start(head), events, Peer::Upstream)).is_prefix_of(
            seq![upstream_head(head)] + lines_read(HttpModel::start(head), events, Peer::Client),
        ),
        texts_in(sent(HttpModel::start(head), events, Peer::Client)).is_prefix_of(
            response_texts(lines_read(HttpModel::start(head), events, Peer::Upstream)),
        ),
{
    lemma_exchange_sends_what_is_due(HttpModel::start(head), events);
}

} // verus!
