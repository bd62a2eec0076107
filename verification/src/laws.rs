//! What holds of a connection as a whole.

use crate::exchange::{HttpModel, HttpStateModel};
use crate::protocol::{
    answers, is_blank, ActionModel, ConnectOutcomeModel, ErrorModel, EventModel, Peer,
    ProxyOutcomeModel,
};
use crate::relay::RelayStateModel;
use crate::request::{request_line, HeadModel, HeadReaderModel};
use crate::runtime::{counted, total_bound, RuntimeEvent, RuntimeModel};
use crate::session::{PhaseModel, SessionModel};
use crate::transcript::{
    admitted, lemma_exchange_stays_valid, lines_read, run, sent, Machine, Piece,
};
use crate::transfer::{no_transfer, Direction, TransferStats};
use crate::tunnel::{
    arrived, counter, law_tunnel_counts_what_arrived, stats_run, total, tunnel_run, SideEvent,
    TunnelModel,
};
use vstd::arithmetic::div_mod::{lemma_add_mod_noop_right, lemma_small_mod};
use vstd::prelude::*;

verus! {

impl Machine for HeadReaderModel {
    open spec fn wanted(self) -> ActionModel {
        self.action()
    }

    open spec fn admits(self, event: EventModel) -> bool {
        true
    }

    open spec fn advanced(self, event: EventModel) -> HeadReaderModel {
        self.next(event)
    }
}

impl Machine for SessionModel {
    open spec fn wanted(self) -> ActionModel {
        self.action()
    }

    open spec fn admits(self, event: EventModel) -> bool {
        self.in_range(event)
    }

    open spec fn advanced(self, event: EventModel) -> SessionModel {
        self.next(event)
    }
}

/// The events of reading the lines one by one.
pub open spec fn line_events(lines: Seq<Seq<char>>) -> Seq<EventModel> {
    lines.map_values(|line: Seq<char>| EventModel::Line(line))
}

// ---------------------------------------------------------------------------
// Heads
// ---------------------------------------------------------------------------

proof fn lemma_headers_are_collected(
    head: HeadModel,
    headers: Seq<Seq<char>>,
    end: Seq<char>,
)
    requires
        forall|i: int| 0 <= i < headers.len() ==> !is_blank(#[trigger] headers[i]),
        is_blank(end),
    ensures
        run(HeadReaderModel::Headers(head), line_events(headers.push(end)))
            == HeadReaderModel::Complete(HeadModel { headers: head.headers + headers, ..head }),
    decreases headers.len(),
{
    let events = line_events(headers.push(end));
    reveal_with_fuel(run, 2);
    if headers.len() == 0 {
        assert(events[0] == EventModel::Line(end));
        assert(events.drop_first().len() == 0);
        assert(head.headers + headers =~= head.headers);
    } else {
        let rest = headers.drop_first();
        assert(events[0] == EventModel::Line(headers[0]));
        assert(events.drop_first() =~= line_events(rest.push(end)));
        assert(!is_blank(headers[0]));
        assert forall|i: int| 0 <= i < rest.len() implies !is_blank(#[trigger] rest[i]) by {
            assert(rest[i] == headers[i + 1]);
        }
        let next = HeadModel { headers: head.headers.push(headers[0]), ..head };
        lemma_headers_are_collected(next, rest, end);
        assert(next.headers + rest =~= head.headers + headers);
    }
}

/// A well-formed request line, header lines and a blank line make a head with
/// just those headers, in order and as they were read.
pub proof fn law_head_holds_the_lines_read(
    line: Seq<char>,
    headers: Seq<Seq<char>>,
    end: Seq<char>,
)
    requires
        !is_blank(line),
        request_line(line) is Some,
        forall|i: int| 0 <= i < headers.len() ==> !is_blank(#[trigger] headers[i]),
        is_blank(end),
    ensures
        run(HeadReaderModel::RequestLine, line_events(seq![line] + headers.push(end)))
            == HeadReaderModel::Complete(
            HeadModel { headers, ..request_line(line).unwrap() },
        ),
{
    let events = line_events(seq![line] + headers.push(end));
    let head = request_line(line).unwrap();
    assert(events[0] == EventModel::Line(line));
    assert(events.drop_first() =~= line_events(headers.push(end)));
    lemma_headers_are_collected(head, headers, end);
    assert(head.headers + headers =~= headers);
}

// ---------------------------------------------------------------------------
// Every state of a connection
// ---------------------------------------------------------------------------

/// A connection starts as it should be, and stays so whatever happens.
pub proof fn law_connection_stays_valid(s: SessionModel, event: EventModel)
    requires
        s.valid(),
    ensures
        SessionModel::start().valid(),
        s.next(event).valid(),
{
    match s.phase {
        PhaseModel::Http(http) => {
            lemma_exchange_stays_valid(http, event);
        },
        _ => {},
    }
}

/// So every state that a connection can come to is as it should be.
pub proof fn law_every_state_is_valid(s: SessionModel, events: Seq<EventModel>)
    requires
        s.valid(),
    ensures
        run(s, events).valid(),
    decreases events.len(),
{
    if events.len() > 0 {
        law_connection_stays_valid(s, events[0]);
        law_every_state_is_valid(s.next(events[0]), events.drop_first());
    }
}

/// There is something to do as long as the connection is not over, and its
/// outcome is known as soon as it is.
pub proof fn law_connection_stops_when_it_is_over(s: SessionModel)
    requires
        s.valid(),
    ensures
        s.action() is Stop <==> s.phase is Over,
        s.outcome() is Some <==> s.phase is Over,
{
}

/// Every answer to an action moves the connection on.
pub proof fn law_every_answer_moves_on(s: SessionModel, event: EventModel)
    requires
        s.valid(),
        answers(s.action(), event),
    ensures
        s.next(event) != s,
{
    match s.phase {
        PhaseModel::Head(HeadReaderModel::Headers(head)) => {
            if let EventModel::Line(line) = event {
                assert(head.headers.push(line).len() != head.headers.len());
            }
        },
        PhaseModel::Http(http) => {
            if let HttpStateModel::Relaying(relay) = http.state {
                if let RelayStateModel::Headers { headers, .. } = relay.state {
                    if let EventModel::Line(line) = event {
                        assert(headers.push(line).len() != headers.len());
                    }
                }
            }
        },
        _ => {},
    }
}

/// What is over stays over.
pub proof fn law_end_is_final(s: SessionModel, events: Seq<EventModel>)
    requires
        s.phase is Over,
    ensures
        run(s, events) == s,
    decreases events.len(),
{
    if events.len() > 0 {
        law_end_is_final(s.next(events[0]), events.drop_first());
    }
}

/// A failure ends the connection and is its outcome, unless it was the attempt
/// to reach the target of a tunnel that failed.
pub proof fn law_failure_ends_connection(s: SessionModel, reason: Seq<char>)
    requires
        s.valid(),
        answers(s.action(), EventModel::Failed(reason)),
        !(s.action() is Reach),
    ensures
        s.next(EventModel::Failed(reason)).outcome() == Some(
            ProxyOutcomeModel {
                target: s.target,
                transfer: no_transfer(),
                error: Some(ErrorModel::Io(reason)),
            },
        ),
{
}

// ---------------------------------------------------------------------------
// The target
// ---------------------------------------------------------------------------

/// The target that a connection has made known never changes, and is not made
/// known again.
pub proof fn law_target_is_announced_once(s: SessionModel, events: Seq<EventModel>)
    requires
        s.target is Some,
        !(s.phase is Announcing),
    ensures
        run(s, events).target == s.target,
        !(run(s, events).phase is Announcing),
        !(run(s, events).action() is Announce),
    decreases events.len(),
{
    if events.len() > 0 {
        law_target_is_announced_once(s.next(events[0]), events.drop_first());
    }
}

/// The first head that is read decides which target is made known, before
/// anything else is done for its request.
pub proof fn law_first_target_is_announced(s: SessionModel, event: EventModel)
    requires
        s.valid(),
        s.target is None,
    ensures
        s.next(event).target is Some ==> {
            &&& s.phase is Head
            &&& s.phase->Head_0.next(event) is Complete
            &&& s.next(event).target == Some(s.phase->Head_0.next(event)->Complete_0.target)
            &&& s.next(event).action() == ActionModel::Announce {
                target: s.phase->Head_0.next(event)->Complete_0.target,
            }
        },
        s.next(event).target is None ==> s.next(event).phase is Head || s.next(event).phase is Over,
{
}

// ---------------------------------------------------------------------------
// Exchanges
// ---------------------------------------------------------------------------

/// The exchange is brought to its end by the last of the events.
pub open spec fn is_full_exchange(h: HttpModel, events: Seq<EventModel>) -> bool
    decreases events.len(),
{
    &&& events.len() > 0
    &&& if events.len() == 1 {
        h.next(events[0]).ended()
    } else {
        !h.next(events[0]).ended() && is_full_exchange(h.next(events[0]), events.drop_first())
    }
}

/// A connection does for a request just what the exchange for that request
/// does. When the exchange is over, the connection waits for the next request
/// if the client may go on; otherwise it is over, with the error of the
/// exchange, if there was one.
pub proof fn law_connection_serves_exchange(
    s: SessionModel,
    events: Seq<EventModel>,
    end: Peer,
)
    requires
        s.phase is Http,
        is_full_exchange(s.phase->Http_0, events),
    ensures
        sent(s, events, end) == sent(s.phase->Http_0, events, end),
        lines_read(s, events, end) == lines_read(s.phase->Http_0, events, end),
        admitted(s, events) == admitted(s.phase->Http_0, events),
        run(s, events) == (SessionModel {
            target: s.target,
            phase: match run(s.phase->Http_0, events).state {
                HttpStateModel::Complete { keep: true } => PhaseModel::Head(
                    HeadReaderModel::RequestLine,
                ),
                HttpStateModel::Broken(error) => PhaseModel::Over {
                    transfer: no_transfer(),
                    error: Some(error),
                },
                _ => PhaseModel::Over { transfer: no_transfer(), error: None },
            },
        }),
    decreases events.len(),
{
    let next = s.next(events[0]);
    let next_exchange = s.phase->Http_0.next(events[0]);
    let rest = events.drop_first();
    if events.len() == 1 {
        assert(run(next, rest) == next);
        assert(run(next_exchange, rest) == next_exchange);
        assert(admitted(next, rest) && admitted(next_exchange, rest));
        assert(sent(next, rest, end) == sent(next_exchange, rest, end));
        assert(lines_read(next, rest, end) == lines_read(next_exchange, rest, end));
    } else {
        law_connection_serves_exchange(next, rest, end);
    }
}

// ---------------------------------------------------------------------------
// Tunnels
// ---------------------------------------------------------------------------

/// A tunnel has its connection to itself: after a `CONNECT` request nothing
/// else is read as a request, and the end of the tunnel is the end of the
/// connection.
pub proof fn law_tunnel_owns_its_connection(s: SessionModel, events: Seq<EventModel>)
    requires
        s.phase is Connect,
    ensures
        run(s, events).phase is Connect || run(s, events).phase is Over,
        run(s, events).phase is Connect ==> run(s, events).phase->Connect_0.target
            == s.phase->Connect_0.target,
        !(run(s, events).action() is ReadLine),
        !(run(s, events).action() is Dial),
    decreases events.len(),
{
    if events.len() > 0 {
        let next = s.next(events[0]);
        let rest = events.drop_first();
        if next.phase is Connect {
            law_tunnel_owns_its_connection(next, rest);
        } else {
            law_end_is_final(next, rest);
        }
    }
}

/// If the target of a tunnel cannot be reached, the client is answered
/// `502 Bad Gateway` and the connection ends with the reason, without having
/// carried or counted anything.
pub proof fn law_unreachable_target_is_refused(
    s: SessionModel,
    target: Seq<char>,
    reason: Seq<char>,
    stats: RuntimeModel,
)
    requires
        s.valid(),
        s.action() == (ActionModel::Reach { target }),
    ensures
        ({
            let refusing = s.next(EventModel::Failed(reason));
            &&& refusing.action() == (ActionModel::Write {
                to: Peer::Client,
                text: "HTTP/1.1 502 Bad Gateway\r\n\r\n"@,
            })
            &&& refusing.next(EventModel::Done).outcome() == Some(
                ProxyOutcomeModel {
                    target: s.target,
                    transfer: no_transfer(),
                    error: Some(ErrorModel::SocksConnect { target, reason }),
                },
            )
            &&& s.next_stats(EventModel::Failed(reason), stats) == stats
            &&& refusing.next_stats(EventModel::Done, stats) == stats
        }),
        sent(s, seq![EventModel::Failed(reason), EventModel::Done], Peer::Client) == seq![
            Piece::Text("HTTP/1.1 502 Bad Gateway\r\n\r\n"@),
        ],
{
    let events = seq![EventModel::Failed(reason), EventModel::Done];
    assert(events.drop_first() =~= seq![EventModel::Done]);
    assert(events.drop_first().drop_first().len() == 0);
    reveal_with_fuel(sent, 3);
}

/// The events with which a tunnel is opened: what the client sent ahead is set
/// aside, the target is reached, the client is told, and what was set aside is
/// sent on, if there is any.
pub open spec fn opening(pending: Seq<u8>) -> Seq<EventModel> {
    let events = seq![EventModel::Buffered(pending), EventModel::Done, EventModel::Done];
    if pending.len() == 0 {
        events
    } else {
        events.push(EventModel::Done)
    }
}

/// If the target of a tunnel is reached, the client is answered
/// `200 Connection Established`; what it sent ahead of the answer goes first
/// through the tunnel, and is counted once, in the counters of the tunnel and
/// in those of the whole run.
pub proof fn law_reached_target_is_accepted(
    s: SessionModel,
    pending: Seq<u8>,
    stats: RuntimeModel,
)
    requires
        s.valid(),
        s.action() is TakeBuffered,
        pending.len() <= u64::MAX,
    ensures
        ({
            let reaching = s.next(EventModel::Buffered(pending));
            let accepting = reaching.next(EventModel::Done);
            let accepted = accepting.next(EventModel::Done);
            let open = if pending.len() == 0 {
                accepted
            } else {
                accepted.next(EventModel::Done)
            };
            &&& reaching.action() == (ActionModel::Reach { target: s.phase->Connect_0.target })
            &&& accepting.action() == (ActionModel::Write {
                to: Peer::Client,
                text: "HTTP/1.1 200 Connection Established\r\n\r\n"@,
            })
            &&& pending.len() > 0 ==> accepted.action() == (ActionModel::WriteBytes {
                bytes: pending,
            })
            &&& pending.len() > 0 ==> accepted.next_stats(EventModel::Done, stats) == counted(
                stats,
                RuntimeEvent::Sent(pending.len() as u64),
            )
            &&& open.action() == (ActionModel::OpenTunnel {
                counters: TransferStats {
                    client_to_upstream: pending.len() as u64,
                    upstream_to_client: 0,
                },
            })
            &&& s.next_stats(EventModel::Buffered(pending), stats) == stats
            &&& reaching.next_stats(EventModel::Done, stats) == stats
            &&& accepting.next_stats(EventModel::Done, stats) == stats
            &&& run(s, opening(pending)) == open
        }),
        sent(s, opening(pending), Peer::Client) == seq![
            Piece::Text("HTTP/1.1 200 Connection Established\r\n\r\n"@),
        ],
        sent(s, opening(pending), Peer::Upstream) == if pending.len() == 0 {
            Seq::empty()
        } else {
            seq![Piece::Raw(pending)]
        },
{
    let events = opening(pending);
    let behind = events.drop_first().drop_first().drop_first();
    assert(events[0] == EventModel::Buffered(pending));
    assert(events.drop_first()[0] is Done);
    assert(events.drop_first().drop_first()[0] is Done);
    if pending.len() == 0 {
        assert(behind.len() == 0);
    } else {
        assert(behind[0] is Done);
        assert(behind.drop_first().len() == 0);
    }
    reveal_with_fuel(run, 5);
    reveal_with_fuel(sent, 5);
    assert(sent(s, events, Peer::Client) =~= seq![
        Piece::Text("HTTP/1.1 200 Connection Established\r\n\r\n"@),
    ]);
    if pending.len() > 0 {
        assert(sent(s, events, Peer::Upstream) =~= seq![Piece::Raw(pending)]);
    } else {
        assert(sent(s, events, Peer::Upstream) =~= Seq::empty());
    }
}

/// The outcome of a connection that ends with a tunnel is that of the tunnel.
pub proof fn law_tunnel_decides_the_outcome(
    s: SessionModel,
    counters: TransferStats,
    outcome: ConnectOutcomeModel,
)
    requires
        s.valid(),
        s.action() == (ActionModel::OpenTunnel { counters }),
    ensures
        s.next(EventModel::TunnelClosed(outcome)).outcome() == Some(
            ProxyOutcomeModel {
                target: s.target,
                transfer: outcome.transfer,
                error: outcome.error,
            },
        ),
{
}

/// The bytes in the outcome of a connection that ends with a tunnel are those
/// that went ahead of the tunnel and those that arrived through it.
pub proof fn law_outcome_counts_what_went_through(
    s: SessionModel,
    counters: TransferStats,
    events: Seq<SideEvent>,
    direction: Direction,
)
    requires
        s.valid(),
        s.action() == (ActionModel::OpenTunnel { counters }),
        tunnel_run(TunnelModel::start(counters), events).outcome() is Some,
    ensures
        ({
            let closed = tunnel_run(TunnelModel::start(counters), events).outcome().unwrap();
            let outcome = s.next(EventModel::TunnelClosed(closed)).outcome();
            &&& outcome is Some
            &&& counter(outcome.unwrap().transfer, direction) == (counter(counters, direction)
                + arrived(TunnelModel::start(counters), events, direction)) % total_bound()
        }),
{
    let stats = RuntimeModel { started: 0, active: 0, tx: 0, rx: 0 };
    law_tunnel_counts_what_arrived(TunnelModel::start(counters), events, stats, direction);
}

/// Only a tunnel carries bytes that are counted for a connection.
pub proof fn law_no_tunnel_no_transfer(s: SessionModel, event: EventModel)
    requires
        s.valid(),
        !(s.phase is Over),
        !(s.action() is OpenTunnel),
        s.next(event).outcome() is Some,
    ensures
        s.next(event).outcome().unwrap().transfer == no_transfer(),
{
}

/// The counters of the whole run after a sequence of events in one connection.
pub open spec fn session_stats(
    s: SessionModel,
    events: Seq<EventModel>,
    stats: RuntimeModel,
) -> RuntimeModel
    decreases events.len(),
{
    if events.len() == 0 {
        stats
    } else {
        session_stats(
            s.next(events[0]),
            events.drop_first(),
            s.next_stats(events[0], stats),
        )
    }
}

/// None of the events is the end of a tunnel.
pub open spec fn before_tunnel(events: Seq<EventModel>) -> bool {
    forall|i: int| 0 <= i < events.len() ==> !(#[trigger] events[i] is TunnelClosed)
}

/// A connection that is over, or has an open tunnel, counts nothing more by
/// itself.
proof fn lemma_nothing_more_is_counted(
    s: SessionModel,
    events: Seq<EventModel>,
    stats: RuntimeModel,
)
    requires
        s.phase is Over || (s.valid() && s.action() is OpenTunnel),
        before_tunnel(events),
    ensures
        run(s, events) == s,
        session_stats(s, events, stats) == stats,
    decreases events.len(),
{
    if events.len() > 0 {
        assert(!(events[0] is TunnelClosed));
        let rest = events.drop_first();
        assert forall|i: int| 0 <= i < rest.len() implies !(#[trigger] rest[i] is TunnelClosed) by {
            assert(rest[i] == events[i + 1]);
        }
        assert(s.next(events[0]) == s);
        lemma_nothing_more_is_counted(s, rest, stats);
    }
}

/// Up to the opening of a tunnel nothing is counted but what was sent ahead of
/// it.
proof fn lemma_counted_ahead(s: SessionModel, events: Seq<EventModel>, stats: RuntimeModel)
    requires
        s.valid(),
        !(s.phase is Over),
        !(s.action() is OpenTunnel),
        before_tunnel(events),
        0 <= stats.tx < total_bound(),
    ensures
        ({
            let end = run(s, events);
            let after = session_stats(s, events, stats);
            if end.action() is OpenTunnel {
                &&& end.valid()
                &&& after == (RuntimeModel {
                    tx: (stats.tx + end.action()->counters.client_to_upstream) % total_bound(),
                    ..stats
                })
                &&& end.action()->counters.upstream_to_client == 0
            } else {
                &&& after == stats
                &&& end.outcome() is Some ==> end.outcome().unwrap().transfer == no_transfer()
            }
        }),
    decreases events.len(),
{
    if events.len() > 0 {
        let event = events[0];
        let next = s.next(event);
        let next_stats = s.next_stats(event, stats);
        let rest = events.drop_first();
        assert(!(event is TunnelClosed));
        assert forall|i: int| 0 <= i < rest.len() implies !(#[trigger] rest[i] is TunnelClosed) by {
            assert(rest[i] == events[i + 1]);
        }
        law_connection_stays_valid(s, event);
        lemma_small_mod(stats.tx as nat, total_bound() as nat);
        if next.phase is Over {
            law_no_tunnel_no_transfer(s, event);
            lemma_nothing_more_is_counted(next, rest, next_stats);
        } else if next.action() is OpenTunnel {
            lemma_nothing_more_is_counted(next, rest, next_stats);
        } else {
            assert(next_stats == stats);
            lemma_counted_ahead(next, rest, stats);
        }
    }
}

/// Over a whole connection the totals of the run grow by just what the outcome
/// says was transferred, and nothing else in the counters changes. That is
/// nothing for a connection that ends without an open tunnel, as every `CONNECT`
/// request does that fails before: `events` is what happens up to the opening of
/// the tunnel, and `carried` what happens in it.
pub proof fn law_totals_grow_by_the_transfer(
    s: SessionModel,
    events: Seq<EventModel>,
    carried: Seq<SideEvent>,
    stats: RuntimeModel,
    direction: Direction,
)
    requires
        s.valid(),
        !(s.phase is Over),
        !(s.action() is OpenTunnel),
        before_tunnel(events),
        0 <= stats.tx < total_bound(),
        0 <= stats.rx < total_bound(),
    ensures
        run(s, events).outcome() is Some ==> {
            &&& run(s, events).outcome().unwrap().transfer == no_transfer()
            &&& session_stats(s, events, stats) == stats
        },
        run(s, events).action() is OpenTunnel ==> {
            let opened = run(s, events);
            let tunnel = TunnelModel::start(opened.action()->counters);
            let ended = tunnel_run(tunnel, carried);
            ended.outcome() is Some ==> {
                let closed = EventModel::TunnelClosed(ended.outcome().unwrap());
                let in_tunnel = stats_run(tunnel, carried, session_stats(s, events, stats));
                let after = opened.next_stats(closed, in_tunnel);
                let outcome = opened.next(closed).outcome();
                &&& outcome is Some
                &&& total(after, direction) == (total(stats, direction) + counter(
                    outcome.unwrap().transfer,
                    direction,
                )) % total_bound()
                &&& after.started == stats.started
                &&& after.active == stats.active
            }
        },
{
    let opened = run(s, events);
    let ahead = session_stats(s, events, stats);
    lemma_counted_ahead(s, events, stats);
    if opened.action() is OpenTunnel {
        let counters = opened.action()->counters;
        let tunnel = TunnelModel::start(counters);
        let n = arrived(tunnel, carried, direction);
        let b = total_bound();
        law_tunnel_counts_what_arrived(tunnel, carried, ahead, direction);
        lemma_small_mod(total(stats, direction) as nat, b as nat);
        lemma_add_mod_noop_right(n, total(stats, direction) + counter(counters, direction), b);
        lemma_add_mod_noop_right(total(stats, direction), counter(counters, direction) + n, b);
    }
}

} // verus!
