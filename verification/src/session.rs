//! The connection of one client, from its first request to its end.

use crate::connect::{ConnectExchange, ConnectModel, ConnectState, ConnectStateModel};
use crate::exchange::{HttpExchange, HttpModel, HttpState, HttpStateModel};
use crate::protocol::{
    error_model, text_model, Action, ActionModel, ErrorModel, Event, EventModel, ProxyError,
    ProxyOutcome, ProxyOutcomeModel,
};
use crate::request::{HeadModel, HeadReader, HeadReaderModel, RequestHead};
use crate::runtime::{RuntimeModel, RuntimeStats};
use crate::text::{chars_of, reads};
use crate::transfer::{no_transfer, TransferStats};
use vstd::prelude::*;

verus! {

/// What a connection is busy with.
pub enum Phase {
    /// The head of the next request.
    Head(HeadReader),
    /// Making known what the first request asks for.
    Announcing(RequestHead),
    /// A tunnel.
    Connect(ConnectExchange),
    /// Any other request.
    Http(HttpExchange),
    /// Nothing: the connection is over.
    Over { transfer: TransferStats, error: Option<ProxyError> },
}

/// The model of a `Phase`.
pub enum PhaseModel {
    Head(HeadReaderModel),
    Announcing(HeadModel),
    Connect(ConnectModel),
    Http(HttpModel),
    Over { transfer: TransferStats, error: Option<ErrorModel> },
}

impl View for Phase {
    type V = PhaseModel;

    open spec fn view(&self) -> PhaseModel {
        match self {
            Phase::Head(reader) => PhaseModel::Head(reader@),
            Phase::Announcing(head) => PhaseModel::Announcing(head@),
            Phase::Connect(connect) => PhaseModel::Connect(connect@),
            Phase::Http(http) => PhaseModel::Http(http@),
            Phase::Over { transfer, error } => PhaseModel::Over {
                transfer: *transfer,
                error: error_model(*error),
            },
        }
    }
}

/// The connection of one client.
pub struct Session {
    /// The target of the first request.
    pub target: Option<String>,
    pub phase: Phase,
}

/// The model of a `Session`.
pub struct SessionModel {
    pub target: Option<Seq<char>>,
    pub phase: PhaseModel,
}

impl View for Session {
    type V = SessionModel;

    open spec fn view(&self) -> SessionModel {
        SessionModel { target: text_model(self.target), phase: self.phase@ }
    }
}

/// How a request is served: `CONNECT` opens a tunnel, every other method is an
/// exchange.
pub open spec fn serve(head: HeadModel) -> PhaseModel {
    if head.method == "CONNECT"@ {
        PhaseModel::Connect(ConnectModel::start(head.target))
    } else {
        PhaseModel::Http(HttpModel::start(head))
    }
}

impl SessionModel {
    /// The beginning.
    pub open spec fn start() -> SessionModel {
        SessionModel { target: None, phase: PhaseModel::Head(HeadReaderModel::RequestLine) }
    }

    /// What is to be done next.
    pub open spec fn action(self) -> ActionModel {
        match self.phase {
            PhaseModel::Head(reader) => reader.action(),
            PhaseModel::Announcing(head) => ActionModel::Announce { target: head.target },
            PhaseModel::Connect(connect) => connect.action(),
            PhaseModel::Http(http) => http.action(),
            PhaseModel::Over { .. } => ActionModel::Stop,
        }
    }

    /// What holds at every time: something is left of the part that is under
    /// way, and a request is served only after its connection made known what
    /// the first request asks for.
    pub open spec fn valid(self) -> bool {
        match self.phase {
            PhaseModel::Head(reader) => reader is RequestLine || reader is Headers,
            PhaseModel::Announcing(head) => self.target == Some(head.target),
            PhaseModel::Connect(connect) => self.target is Some && !(connect.state is Ended),
            PhaseModel::Http(http) => self.target is Some && http.valid() && !http.ended(),
            PhaseModel::Over { .. } => true,
        }
    }

    /// Chunk lengths fit in 64 bits.
    pub open spec fn in_range(self, event: EventModel) -> bool {
        match self.phase {
            PhaseModel::Http(http) => http.in_range(event),
            _ => true,
        }
    }

    /// The connection after an event; one that is no answer changes nothing.
    pub open spec fn next(self, event: EventModel) -> SessionModel {
        match self.phase {
            PhaseModel::Head(reader) => {
                let reader = reader.next(event);
                match reader {
                    HeadReaderModel::NoRequest => SessionModel {
                        phase: PhaseModel::Over { transfer: no_transfer(), error: None },
                        ..self
                    },
                    HeadReaderModel::Broken(error) => SessionModel {
                        phase: PhaseModel::Over { transfer: no_transfer(), error: Some(error) },
                        ..self
                    },
                    HeadReaderModel::Complete(head) => match self.target {
                        None => SessionModel {
                            target: Some(head.target),
                            phase: PhaseModel::Announcing(head),
                        },
                        Some(_) => SessionModel { phase: serve(head), ..self },
                    },
                    _ => SessionModel { phase: PhaseModel::Head(reader), ..self },
                }
            },
            PhaseModel::Announcing(head) => if event is Done {
                SessionModel { phase: serve(head), ..self }
            } else {
                self
            },
            PhaseModel::Connect(connect) => {
                let connect = connect.next(event);
                match connect.state {
                    ConnectStateModel::Ended(outcome) => SessionModel {
                        phase: PhaseModel::Over {
                            transfer: outcome.transfer,
                            error: outcome.error,
                        },
                        ..self
                    },
                    _ => SessionModel { phase: PhaseModel::Connect(connect), ..self },
                }
            },
            PhaseModel::Http(http) => {
                let http = http.next(event);
                match http.state {
                    HttpStateModel::Complete { keep } => SessionModel {
                        phase: if keep {
                            PhaseModel::Head(HeadReaderModel::RequestLine)
                        } else {
                            PhaseModel::Over { transfer: no_transfer(), error: None }
                        },
                        ..self
                    },
                    HttpStateModel::Broken(error) => SessionModel {
                        phase: PhaseModel::Over { transfer: no_transfer(), error: Some(error) },
                        ..self
                    },
                    _ => SessionModel { phase: PhaseModel::Http(http), ..self },
                }
            },
            PhaseModel::Over { .. } => self,
        }
    }

    /// The counters of the whole run after an event.
    pub open spec fn next_stats(self, event: EventModel, stats: RuntimeModel) -> RuntimeModel {
        match self.phase {
            PhaseModel::Connect(connect) => connect.next_stats(event, stats),
            _ => stats,
        }
    }

    /// How the connection ended, if it did.
    pub open spec fn outcome(self) -> Option<ProxyOutcomeModel> {
        match self.phase {
            PhaseModel::Over { transfer, error } => Some(
                ProxyOutcomeModel { target: self.target, transfer, error },
            ),
            _ => None,
        }
    }
}

/// The end of a connection without a tunnel.
fn over(error: Option<ProxyError>) -> (r: Phase)
    ensures
        r@ == (PhaseModel::Over { transfer: no_transfer(), error: error_model(error) }),
{
    Phase::Over { transfer: TransferStats::default(), error }
}

/// Starts to serve a request.
fn serve_head(head: RequestHead) -> (r: Phase)
    ensures
        r@ == serve(head@),
{
    let method = chars_of(head.method.as_str());
    if reads(method.as_slice(), "CONNECT") {
        Phase::Connect(ConnectExchange::start(head.target))
    } else {
        Phase::Http(HttpExchange::start(head))
    }
}

impl Session {
    /// Starts with a client that has just connected.
    pub fn start() -> (r: Session)
        ensures
            r@ == SessionModel::start(),
    {
        Session { target: None, phase: Phase::Head(HeadReader::start()) }
    }

    /// What is to be done next.
    pub fn action(&self) -> (r: Action)
        ensures
            r@ == self@.action(),
    {
        match &self.phase {
            Phase::Head(reader) => reader.action(),
            Phase::Announcing(head) => Action::Announce { target: head.target.clone() },
            Phase::Connect(connect) => connect.action(),
            Phase::Http(http) => http.action(),
            Phase::Over { .. } => Action::Stop,
        }
    }

    /// Tells whether `next` can be given the event.
    pub fn accepts(&self, event: &Event) -> (r: bool)
        ensures
            r == self@.in_range(event@),
    {
        match &self.phase {
            Phase::Http(http) => http.accepts(event),
            _ => true,
        }
    }

    /// Goes on with what came of the last action.
    pub fn next(self, event: Event, stats: &mut RuntimeStats) -> (r: Session)
        requires
            self@.in_range(event@),
        ensures
            r@ == self@.next(event@),
            final(stats)@ == self@.next_stats(event@, old(stats)@),
    {
        let target = self.target;
        match self.phase {
            Phase::Head(reader) => match reader.next(event) {
                HeadReader::NoRequest => Session { target, phase: over(None) },
                HeadReader::Broken(error) => Session { target, phase: over(Some(error)) },
                HeadReader::Complete(head) => match target {
                    None => Session {
                        target: Some(head.target.clone()),
                        phase: Phase::Announcing(head),
                    },
                    Some(target) => Session { target: Some(target), phase: serve_head(head) },
                },
                reader => Session { target, phase: Phase::Head(reader) },
            },
            Phase::Announcing(head) => match event {
                Event::Done => Session { target, phase: serve_head(head) },
                _ => Session { target, phase: Phase::Announcing(head) },
            },
            Phase::Connect(connect) => {
                let connect = connect.next(event, stats);
                match connect.state {
                    ConnectState::Ended(outcome) => {
                        let mut transfer = TransferStats::default();
                        transfer.add(outcome.transfer);
                        Session { target, phase: Phase::Over { transfer, error: outcome.error } }
                    },
                    state => Session {
                        target,
                        phase: Phase::Connect(ConnectExchange { target: connect.target, state }),
                    },
                }
            },
            Phase::Http(http) => {
                let http = http.next(event);
                match http.state {
                    HttpState::Complete { keep } => Session {
                        target,
                        phase: if keep {
                            Phase::Head(HeadReader::start())
                        } else {
                            over(None)
                        },
                    },
                    HttpState::Broken(error) => Session { target, phase: over(Some(error)) },
                    state => Session {
                        target,
                        phase: Phase::Http(HttpExchange { head: http.head, state }),
                    },
                }
            },
            Phase::Over { transfer, error } => Session {
                target,
                phase: Phase::Over { transfer, error },
            },
        }
    }

    /// How the connection ended, if it did.
    pub fn outcome(self) -> (r: Option<ProxyOutcome>)
        ensures
            match r {
                Some(outcome) => self@.outcome() == Some(outcome@),
                None => self@.outcome() is None,
            },
    {
        match self.phase {
            Phase::Over { transfer, error } => Some(
                ProxyOutcome { target: self.target, transfer, error },
            ),
            _ => None,
        }
    }
}

} // verus!
