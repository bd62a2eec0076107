//! One request and its response, through an upstream server of its own.

use crate::body::{BodyCopy, BodyModel, BodyState, BodyStateModel};
use crate::header::framing;
use crate::protocol::{Action, ActionModel, ErrorModel, Event, EventModel, Peer, ProxyError};
use crate::relay::{RelayModel, RelayState, RelayStateModel, ResponseRelay};
use crate::request::{
    client_requested_close, find_origin, origin, request_body_framing, upstream_head, wants_close,
    write_upstream_head, HeadModel, RequestHead,
};
use vstd::prelude::*;

verus! {

/// How far an exchange has come.
pub enum HttpState {
    /// A connection to the upstream server is to be made.
    Dialing,
    /// The head of the request is to be sent.
    Sending,
    /// The body of the request is to be passed on.
    Body(BodyCopy),
    /// The upstream server is to be told that the request is complete.
    Closing,
    /// The response is to be passed on.
    Relaying(ResponseRelay),
    /// The exchange is over; `keep` tells whether the client may send another
    /// request on its connection.
    Complete { keep: bool },
    /// The exchange failed.
    Broken(ProxyError),
}

/// The model of an `HttpState`.
pub enum HttpStateModel {
    Dialing,
    Sending,
    Body(BodyModel),
    Closing,
    Relaying(RelayModel),
    Complete { keep: bool },
    Broken(ErrorModel),
}

impl View for HttpState {
    type V = HttpStateModel;

    open spec fn view(&self) -> HttpStateModel {
        match self {
            HttpState::Dialing => HttpStateModel::Dialing,
            HttpState::Sending => HttpStateModel::Sending,
            HttpState::Body(body) => HttpStateModel::Body(body@),
            HttpState::Closing => HttpStateModel::Closing,
            HttpState::Relaying(relay) => HttpStateModel::Relaying(relay@),
            HttpState::Complete { keep } => HttpStateModel::Complete { keep: *keep },
            HttpState::Broken(error) => HttpStateModel::Broken(error@),
        }
    }
}

/// The exchange that a request with the head `head` begins.
pub struct HttpExchange {
    pub head: RequestHead,
    pub state: HttpState,
}

/// The model of an `HttpExchange`.
pub struct HttpModel {
    pub head: HeadModel,
    pub state: HttpStateModel,
}

impl View for HttpExchange {
    type V = HttpModel;

    open spec fn view(&self) -> HttpModel {
        HttpModel { head: self.head@, state: self.state@ }
    }
}

/// The passing on of a request body, or what follows when all of it was passed
/// on.
pub open spec fn after_body(body: BodyModel) -> HttpStateModel {
    match body.state {
        BodyStateModel::Complete => HttpStateModel::Closing,
        BodyStateModel::Broken(error) => HttpStateModel::Broken(error),
        _ => HttpStateModel::Body(body),
    }
}

impl HttpModel {
    /// The beginning.
    pub open spec fn start(head: HeadModel) -> HttpModel {
        HttpModel { head, state: HttpStateModel::Dialing }
    }

    /// What is to be done next.
    pub open spec fn action(self) -> ActionModel {
        match self.state {
            HttpStateModel::Dialing => ActionModel::Dial {
                host: origin(self.head.target).host,
                port: origin(self.head.target).port,
            },
            HttpStateModel::Sending => ActionModel::Write {
                to: Peer::Upstream,
                text: upstream_head(self.head),
            },
            HttpStateModel::Body(body) => body.action(),
            HttpStateModel::Closing => ActionModel::ShutdownUpstream,
            HttpStateModel::Relaying(relay) => relay.action(),
            _ => ActionModel::Stop,
        }
    }

    /// Chunk lengths fit in 64 bits.
    pub open spec fn in_range(self, event: EventModel) -> bool {
        match self.state {
            HttpStateModel::Body(body) => body.in_range(event),
            HttpStateModel::Relaying(relay) => relay.in_range(event),
            _ => true,
        }
    }

    /// What holds at every time: a body under way goes to the upstream server,
    /// and something is left of the part that is under way.
    pub open spec fn valid(self) -> bool {
        match self.state {
            HttpStateModel::Body(body) => {
                &&& body.from == Peer::Client
                &&& body.to == Peer::Upstream
                &&& !body.ended()
            },
            HttpStateModel::Relaying(relay) => {
                &&& relay.valid()
                &&& !relay.ended()
                &&& relay.method == self.head.method
            },
            _ => true,
        }
    }

    /// Nothing is left to be done.
    pub open spec fn ended(self) -> bool {
        self.state is Complete || self.state is Broken
    }

    /// The exchange after an event; one that is no answer changes nothing.
    pub open spec fn next(self, event: EventModel) -> HttpModel {
        let state = match (self.state, event) {
            (HttpStateModel::Dialing, EventModel::Done) => HttpStateModel::Sending,
            (HttpStateModel::Sending, EventModel::Done) => after_body(
                BodyModel::start(Peer::Client, Peer::Upstream, framing(self.head.headers)),
            ),
            (HttpStateModel::Body(body), event) => after_body(body.next(event)),
            (HttpStateModel::Closing, EventModel::Done) => HttpStateModel::Relaying(
                RelayModel::start(self.head.method),
            ),
            (HttpStateModel::Relaying(relay), event) => {
                let relay = relay.next(event);
                match relay.state {
                    RelayStateModel::Complete { reuse } => HttpStateModel::Complete {
                        keep: reuse && !wants_close(self.head),
                    },
                    RelayStateModel::Broken(error) => HttpStateModel::Broken(error),
                    _ => HttpStateModel::Relaying(relay),
                }
            },
            (state, EventModel::Failed(reason)) => if self.ended() {
                state
            } else {
                HttpStateModel::Broken(ErrorModel::Io(reason))
            },
            (state, _) => state,
        };
        HttpModel { state, ..self }
    }
}

/// Goes on with the passing on of a request body, or with what follows it.
fn follow_body(body: BodyCopy) -> (r: HttpState)
    ensures
        r@ == after_body(body@),
{
    match body.state {
        BodyState::Complete => HttpState::Closing,
        BodyState::Broken(error) => HttpState::Broken(error),
        state => HttpState::Body(BodyCopy { from: body.from, to: body.to, state }),
    }
}

impl HttpExchange {
    /// Starts the exchange for a request.
    pub fn start(head: RequestHead) -> (r: HttpExchange)
        ensures
            r@ == HttpModel::start(head@),
    {
        HttpExchange { head, state: HttpState::Dialing }
    }

    /// What is to be done next.
    pub fn action(&self) -> (r: Action)
        ensures
            r@ == self@.action(),
    {
        match &self.state {
            HttpState::Dialing => {
                let origin = find_origin(self.head.target.as_str());
                Action::Dial { host: origin.host, port: origin.port }
            },
            HttpState::Sending => Action::Write {
                to: Peer::Upstream,
                text: write_upstream_head(&self.head),
            },
            HttpState::Body(body) => body.action(),
            HttpState::Closing => Action::ShutdownUpstream,
            HttpState::Relaying(relay) => relay.action(),
            HttpState::Complete { .. } | HttpState::Broken(_) => Action::Stop,
        }
    }

    /// Tells whether `next` can be given the event.
    pub fn accepts(&self, event: &Event) -> (r: bool)
        ensures
            r == self@.in_range(event@),
    {
        match &self.state {
            HttpState::Body(body) => body.accepts(event),
            HttpState::Relaying(relay) => relay.accepts(event),
            _ => true,
        }
    }

    /// Goes on with what came of the last action.
    pub fn next(self, event: Event) -> (r: HttpExchange)
        requires
            self@.in_range(event@),
        ensures
            r@ == self@.next(event@),
    {
        let head = self.head;
        let state = match (self.state, event) {
            (HttpState::Dialing, Event::Done) => HttpState::Sending,
            (HttpState::Sending, Event::Done) => follow_body(
                BodyCopy::start(Peer::Client, Peer::Upstream, request_body_framing(&head)),
            ),
            (HttpState::Body(body), event) => follow_body(body.next(event)),
            (HttpState::Closing, Event::Done) => HttpState::Relaying(
                ResponseRelay::start(head.method.clone()),
            ),
            (HttpState::Relaying(relay), event) => {
                let relay = relay.next(event);
                match relay.state {
                    RelayState::Complete { reuse } => HttpState::Complete {
                        keep: reuse && !client_requested_close(&head),
                    },
                    RelayState::Broken(error) => HttpState::Broken(error),
                    state => HttpState::Relaying(ResponseRelay { method: relay.method, state }),
                }
            },
            (HttpState::Complete { keep }, _) => HttpState::Complete { keep },
            (HttpState::Broken(error), _) => HttpState::Broken(error),
            (_, Event::Failed(reason)) => HttpState::Broken(ProxyError::Io(reason)),
            (state, _) => state,
        };
        HttpExchange { head, state }
    }
}

} // verus!
