//! A `CONNECT` request: opening a tunnel to its target.

use crate::protocol::{
    Action, ActionModel, ConnectOutcome, ConnectOutcomeModel, ErrorModel, Event, EventModel, Peer,
    ProxyError,
};
use crate::runtime::{counted, RuntimeEvent, RuntimeModel, RuntimeStats};
use crate::transfer::{no_transfer, TransferCounters, TransferStats};
use vstd::prelude::*;
use vstd::slice::slice_to_vec;

verus! {

/// How far the opening of a tunnel has come.
pub enum ConnectState {
    /// What the client sent ahead of the answer is to be set aside.
    Setup,
    /// The SOCKS5 server is to be asked for the connection.
    Reaching { pending: Vec<u8> },
    /// The client is to be told that there is no connection.
    Refusing { reason: String },
    /// The client is to be told that there is a connection.
    Accepting { pending: Vec<u8> },
    /// What the client sent ahead of the answer is to be sent on.
    Flushing { pending: Vec<u8> },
    /// The tunnel is open. So many bytes were sent on ahead of it.
    Open { ahead: u64 },
    /// The request is over.
    Ended(ConnectOutcome),
}

/// The model of a `ConnectState`.
pub enum ConnectStateModel {
    Setup,
    Reaching { pending: Seq<u8> },
    Refusing { reason: Seq<char> },
    Accepting { pending: Seq<u8> },
    Flushing { pending: Seq<u8> },
    Open { ahead: u64 },
    Ended(ConnectOutcomeModel),
}

impl View for ConnectState {
    type V = ConnectStateModel;

    open spec fn view(&self) -> ConnectStateModel {
        match self {
            ConnectState::Setup => ConnectStateModel::Setup,
            ConnectState::Reaching { pending } => ConnectStateModel::Reaching { pending: pending@ },
            ConnectState::Refusing { reason } => ConnectStateModel::Refusing { reason: reason@ },
            ConnectState::Accepting { pending } => ConnectStateModel::Accepting {
                pending: pending@,
            },
            ConnectState::Flushing { pending } => ConnectStateModel::Flushing { pending: pending@ },
            ConnectState::Open { ahead } => ConnectStateModel::Open { ahead: *ahead },
            ConnectState::Ended(outcome) => ConnectStateModel::Ended(outcome@),
        }
    }
}

/// A `CONNECT` request for the target `target`.
pub struct ConnectExchange {
    pub target: String,
    pub state: ConnectState,
}

/// The model of a `ConnectExchange`.
pub struct ConnectModel {
    pub target: Seq<char>,
    pub state: ConnectStateModel,
}

impl View for ConnectExchange {
    type V = ConnectModel;

    open spec fn view(&self) -> ConnectModel {
        ConnectModel { target: self.target@, state: self.state@ }
    }
}

/// The end of a request that failed before its tunnel carried anything.
pub open spec fn failed(error: ErrorModel) -> ConnectStateModel {
    ConnectStateModel::Ended(ConnectOutcomeModel { transfer: no_transfer(), error: Some(error) })
}

impl ConnectModel {
    /// The beginning.
    pub open spec fn start(target: Seq<char>) -> ConnectModel {
        ConnectModel { target, state: ConnectStateModel::Setup }
    }

    /// What is to be done next.
    pub open spec fn action(self) -> ActionModel {
        match self.state {
            ConnectStateModel::Setup => ActionModel::TakeBuffered,
            ConnectStateModel::Reaching { .. } => ActionModel::Reach { target: self.target },
            ConnectStateModel::Refusing { .. } => ActionModel::Write {
                to: Peer::Client,
                text: "HTTP/1.1 502 Bad Gateway\r\n\r\n"@,
            },
            ConnectStateModel::Accepting { .. } => ActionModel::Write {
                to: Peer::Client,
                text: "HTTP/1.1 200 Connection Established\r\n\r\n"@,
            },
            ConnectStateModel::Flushing { pending } => ActionModel::WriteBytes { bytes: pending },
            ConnectStateModel::Open { ahead } => ActionModel::OpenTunnel {
                counters: TransferStats { client_to_upstream: ahead, upstream_to_client: 0 },
            },
            ConnectStateModel::Ended(_) => ActionModel::Stop,
        }
    }

    /// The request after an event; one that is no answer changes nothing.
    pub open spec fn next(self, event: EventModel) -> ConnectModel {
        let state = match (self.state, event) {
            (ConnectStateModel::Setup, EventModel::Buffered(pending)) => {
                ConnectStateModel::Reaching { pending }
            },
            (ConnectStateModel::Reaching { pending }, EventModel::Done) => {
                ConnectStateModel::Accepting { pending }
            },
            (ConnectStateModel::Reaching { .. }, EventModel::Failed(reason)) => {
                ConnectStateModel::Refusing { reason }
            },
            (ConnectStateModel::Refusing { reason }, EventModel::Done) => failed(
                ErrorModel::SocksConnect { target: self.target, reason },
            ),
            (ConnectStateModel::Accepting { pending }, EventModel::Done) => if pending.len() == 0 {
                ConnectStateModel::Open { ahead: 0 }
            } else {
                ConnectStateModel::Flushing { pending }
            },
            (ConnectStateModel::Flushing { pending }, EventModel::Done) => {
                ConnectStateModel::Open { ahead: pending.len() as u64 }
            },
            (ConnectStateModel::Open { .. }, EventModel::TunnelClosed(outcome)) => {
                ConnectStateModel::Ended(outcome)
            },
            (ConnectStateModel::Refusing { .. }, EventModel::Failed(reason)) => failed(
                ErrorModel::Io(reason),
            ),
            (ConnectStateModel::Accepting { .. }, EventModel::Failed(reason)) => failed(
                ErrorModel::Io(reason),
            ),
            (ConnectStateModel::Flushing { .. }, EventModel::Failed(reason)) => failed(
                ErrorModel::Io(reason),
            ),
            (state, _) => state,
        };
        ConnectModel { state, ..self }
    }

    /// The counters of the whole run after an event: what was sent on ahead of
    /// the tunnel is counted when it has been sent.
    pub open spec fn next_stats(self, event: EventModel, stats: RuntimeModel) -> RuntimeModel {
        match (self.state, event) {
            (ConnectStateModel::Flushing { pending }, EventModel::Done) => counted(
                stats,
                RuntimeEvent::Sent(pending.len() as u64),
            ),
            _ => stats,
        }
    }
}

/// The end of a request that failed before its tunnel carried anything.
fn fail(error: ProxyError) -> (r: ConnectState)
    ensures
        r@ == failed(error@),
{
    ConnectState::Ended(ConnectOutcome { transfer: TransferStats::default(), error: Some(error) })
}

impl ConnectExchange {
    /// Starts to open a tunnel.
    pub fn start(target: String) -> (r: ConnectExchange)
        ensures
            r@ == ConnectModel::start(target@),
    {
        ConnectExchange { target, state: ConnectState::Setup }
    }

    /// What is to be done next.
    pub fn action(&self) -> (r: Action)
        ensures
            r@ == self@.action(),
    {
        match &self.state {
            ConnectState::Setup => Action::TakeBuffered,
            ConnectState::Reaching { .. } => Action::Reach {
                target: self.target.clone(),
            },
            ConnectState::Refusing { .. } => Action::Write {
                to: Peer::Client,
                text: "HTTP/1.1 502 Bad Gateway\r\n\r\n".to_owned(),
            },
            ConnectState::Accepting { .. } => Action::Write {
                to: Peer::Client,
                text: "HTTP/1.1 200 Connection Established\r\n\r\n".to_owned(),
            },
            ConnectState::Flushing { pending } => Action::WriteBytes {
                bytes: slice_to_vec(pending.as_slice()),
            },
            ConnectState::Open { ahead } => Action::OpenTunnel {
                counters: TransferCounters { client_to_upstream: *ahead, upstream_to_client: 0 },
            },
            ConnectState::Ended(_) => Action::Stop,
        }
    }

    /// Goes on with what came of the last action.
    pub fn next(self, event: Event, stats: &mut RuntimeStats) -> (r: ConnectExchange)
        ensures
            r@ == self@.next(event@),
            final(stats)@ == self@.next_stats(event@, old(stats)@),
    {
        let target = self.target;
        let state = match (self.state, event) {
            (ConnectState::Setup, Event::Buffered(pending)) => ConnectState::Reaching { pending },
            (ConnectState::Reaching { pending }, Event::Done) => ConnectState::Accepting {
                pending,
            },
            (ConnectState::Reaching { .. }, Event::Failed(reason)) => ConnectState::Refusing {
                reason,
            },
            (ConnectState::Refusing { reason }, Event::Done) => fail(
                ProxyError::SocksConnect { target: target.clone(), reason },
            ),
            (ConnectState::Accepting { pending }, Event::Done) => if pending.len() == 0 {
                ConnectState::Open { ahead: 0 }
            } else {
                ConnectState::Flushing { pending }
            },
            (ConnectState::Flushing { pending }, Event::Done) => {
                stats.add_tx_bytes(pending.len() as u64);
                ConnectState::Open { ahead: pending.len() as u64 }
            },
            (ConnectState::Open { .. }, Event::TunnelClosed(outcome)) => ConnectState::Ended(
                outcome,
            ),
            (ConnectState::Refusing { .. }, Event::Failed(reason)) => fail(ProxyError::Io(reason)),
            (ConnectState::Accepting { .. }, Event::Failed(reason)) => fail(ProxyError::Io(reason)),
            (ConnectState::Flushing { .. }, Event::Failed(reason)) => fail(ProxyError::Io(reason)),
            (state, _) => state,
        };
        ConnectExchange { target, state }
    }
}

} // verus!
