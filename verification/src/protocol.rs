//! The vocabulary between the decisions and the world: what is to be done
//! next, what came of it, and what can go wrong.
//!
//! Each executable type has a mathematical model, which its view gives: the
//! same value with texts as sequences of characters.

use crate::transfer::{TransferCounters, TransferStats};
use vstd::prelude::*;
use vstd::string::StringExecFns;

verus! {

/// One of the two ends that the proxy talks to.
#[derive(Clone, Copy, PartialEq, Eq, Structural)]
pub enum Peer {
    Client,
    Upstream,
}

// ---------------------------------------------------------------------------
// Errors
// ---------------------------------------------------------------------------

/// Why a connection ended early.
pub enum ProxyError {
    /// Reading, writing or connecting failed, for the reason given.
    Io(String),
    /// The request line lacks a method or a target.
    MalformedRequestLine,
    /// The SOCKS5 server did not connect to the target of a tunnel.
    SocksConnect { target: String, reason: String },
    /// The line in front of a chunk holds no size.
    InvalidChunkSize,
    /// The upstream server closed the connection without an answer.
    EmptyResponse,
}

/// The model of a `ProxyError`.
pub enum ErrorModel {
    Io(Seq<char>),
    MalformedRequestLine,
    SocksConnect { target: Seq<char>, reason: Seq<char> },
    InvalidChunkSize,
    EmptyResponse,
}

impl View for ProxyError {
    type V = ErrorModel;

    open spec fn view(&self) -> ErrorModel {
        match self {
            ProxyError::Io(reason) => ErrorModel::Io(reason@),
            ProxyError::MalformedRequestLine => ErrorModel::MalformedRequestLine,
            ProxyError::SocksConnect { target, reason } => ErrorModel::SocksConnect {
                target: target@,
                reason: reason@,
            },
            ProxyError::InvalidChunkSize => ErrorModel::InvalidChunkSize,
            ProxyError::EmptyResponse => ErrorModel::EmptyResponse,
        }
    }
}

/// The model of an error that may be absent.
pub open spec fn error_model(e: Option<ProxyError>) -> Option<ErrorModel> {
    match e {
        Some(e) => Some(e@),
        None => None,
    }
}

/// How an error reads.
pub open spec fn error_text(e: ErrorModel) -> Seq<char> {
    match e {
        ErrorModel::Io(reason) => reason,
        ErrorModel::MalformedRequestLine => "malformed request line"@,
        ErrorModel::SocksConnect { target, reason } => "SOCKS5 connect to "@ + target + " failed: "@
            + reason,
        ErrorModel::InvalidChunkSize => "invalid chunk size"@,
        ErrorModel::EmptyResponse => "empty upstream response"@,
    }
}

impl ProxyError {
    /// How the error reads.
    pub fn message(&self) -> (r: String)
        ensures
            r@ == error_text(self@),
    {
        match self {
            ProxyError::Io(reason) => reason.clone(),
            ProxyError::MalformedRequestLine => "malformed request line".to_owned(),
            ProxyError::SocksConnect { target, reason } => {
                let mut r = "SOCKS5 connect to ".to_owned();
                r.append(target.as_str());
                r.append(" failed: ");
                r.append(reason.as_str());
                r
            },
            ProxyError::InvalidChunkSize => "invalid chunk size".to_owned(),
            ProxyError::EmptyResponse => "empty upstream response".to_owned(),
        }
    }
}

// ---------------------------------------------------------------------------
// Outcomes
// ---------------------------------------------------------------------------

/// How a `CONNECT` request ended.
pub struct ConnectOutcome {
    pub transfer: TransferStats,
    pub error: Option<ProxyError>,
}

/// The model of a `ConnectOutcome`.
pub struct ConnectOutcomeModel {
    pub transfer: TransferStats,
    pub error: Option<ErrorModel>,
}

impl View for ConnectOutcome {
    type V = ConnectOutcomeModel;

    open spec fn view(&self) -> ConnectOutcomeModel {
        ConnectOutcomeModel { transfer: self.transfer, error: error_model(self.error) }
    }
}

/// How the connection of a client ended.
pub struct ProxyOutcome {
    /// The target of the first request, if there was one.
    pub target: Option<String>,
    /// The bytes that went through the tunnel.
    pub transfer: TransferStats,
    /// What ended the connection, unless it ended in good order.
    pub error: Option<ProxyError>,
}

/// The model of a `ProxyOutcome`.
pub struct ProxyOutcomeModel {
    pub target: Option<Seq<char>>,
    pub transfer: TransferStats,
    pub error: Option<ErrorModel>,
}

/// The model of a text that may be absent.
pub open spec fn text_model(t: Option<String>) -> Option<Seq<char>> {
    match t {
        Some(t) => Some(t@),
        None => None,
    }
}

impl View for ProxyOutcome {
    type V = ProxyOutcomeModel;

    open spec fn view(&self) -> ProxyOutcomeModel {
        ProxyOutcomeModel {
            target: text_model(self.target),
            transfer: self.transfer,
            error: error_model(self.error),
        }
    }
}

// ---------------------------------------------------------------------------
// Actions and events
// ---------------------------------------------------------------------------

/// What is to be done next.
pub enum Action {
    /// Read up to and with the next line feed; at the end of the input, what
    /// is left.
    ReadLine { from: Peer },
    /// Write the text.
    Write { to: Peer, text: String },
    /// Write the bytes to the upstream server.
    WriteBytes { bytes: Vec<u8> },
    /// Copy up to `limit` bytes; without a limit, all up to the end of the
    /// input.
    Copy { from: Peer, to: Peer, limit: Option<u64> },
    /// Make known which target the client asked for.
    Announce { target: String },
    /// Hand over what was read from the client but not used.
    TakeBuffered,
    /// Ask the SOCKS5 server for a connection to `target`, a host and a port.
    Reach { target: String },
    /// Ask the SOCKS5 server for a connection to the port of a host.
    Dial { host: String, port: u16 },
    /// Tell the upstream server that nothing more will be sent.
    ShutdownUpstream,
    /// Carry bytes both ways until both ends are done, counting from `counters`
    /// on.
    OpenTunnel { counters: TransferCounters },
    /// Nothing: the connection is over.
    Stop,
}

/// The model of an `Action`.
pub enum ActionModel {
    ReadLine { from: Peer },
    Write { to: Peer, text: Seq<char> },
    WriteBytes { bytes: Seq<u8> },
    Copy { from: Peer, to: Peer, limit: Option<u64> },
    Announce { target: Seq<char> },
    TakeBuffered,
    Reach { target: Seq<char> },
    Dial { host: Seq<char>, port: u16 },
    ShutdownUpstream,
    OpenTunnel { counters: TransferStats },
    Stop,
}

impl View for Action {
    type V = ActionModel;

    open spec fn view(&self) -> ActionModel {
        match self {
            Action::ReadLine { from } => ActionModel::ReadLine { from: *from },
            Action::Write { to, text } => ActionModel::Write { to: *to, text: text@ },
            Action::WriteBytes { bytes } => ActionModel::WriteBytes { bytes: bytes@ },
            Action::Copy { from, to, limit } => ActionModel::Copy {
                from: *from,
                to: *to,
                limit: *limit,
            },
            Action::Announce { target } => ActionModel::Announce { target: target@ },
            Action::TakeBuffered => ActionModel::TakeBuffered,
            Action::Reach { target } => ActionModel::Reach { target: target@ },
            Action::Dial { host, port } => ActionModel::Dial { host: host@, port: *port },
            Action::ShutdownUpstream => ActionModel::ShutdownUpstream,
            Action::OpenTunnel { counters } => ActionModel::OpenTunnel { counters: counters@ },
            Action::Stop => ActionModel::Stop,
        }
    }
}

/// What came of an action.
pub enum Event {
    /// A line was read; an empty one stands for the end of the input.
    Line(String),
    /// The action succeeded.
    Done,
    /// The action failed, for the reason given.
    Failed(String),
    /// What was read from the client but not used.
    Buffered(Vec<u8>),
    /// The tunnel was closed.
    TunnelClosed(ConnectOutcome),
}

/// The model of an `Event`.
pub enum EventModel {
    Line(Seq<char>),
    Done,
    Failed(Seq<char>),
    Buffered(Seq<u8>),
    TunnelClosed(ConnectOutcomeModel),
}

impl View for Event {
    type V = EventModel;

    open spec fn view(&self) -> EventModel {
        match self {
            Event::Line(line) => EventModel::Line(line@),
            Event::Done => EventModel::Done,
            Event::Failed(reason) => EventModel::Failed(reason@),
            Event::Buffered(bytes) => EventModel::Buffered(bytes@),
            Event::TunnelClosed(outcome) => EventModel::TunnelClosed(outcome@),
        }
    }
}

/// The event is an answer to the action.
pub open spec fn answers(action: ActionModel, event: EventModel) -> bool {
    match action {
        ActionModel::ReadLine { .. } => event is Line || event is Failed,
        ActionModel::Write { .. } => event is Done || event is Failed,
        ActionModel::WriteBytes { .. } => event is Done || event is Failed,
        ActionModel::Copy { .. } => event is Done || event is Failed,
        ActionModel::Announce { .. } => event is Done,
        ActionModel::TakeBuffered => event is Buffered,
        ActionModel::Reach { .. } => event is Done || event is Failed,
        ActionModel::Dial { .. } => event is Done || event is Failed,
        ActionModel::ShutdownUpstream => event is Done || event is Failed,
        ActionModel::OpenTunnel { .. } => event is TunnelClosed,
        ActionModel::Stop => false,
    }
}

/// A line that ends a sequence of lines: it holds nothing but its line end, or
/// the input ended.
pub open spec fn is_blank(line: Seq<char>) -> bool {
    line == "\r\n"@ || line == "\n"@ || line.len() == 0
}

/// Tells whether a line ends a sequence of lines.
pub fn blank(line: &str) -> (r: bool)
    ensures
        r == is_blank(line@),
{
    let s = crate::text::chars_of(line);
    crate::text::reads(s.as_slice(), "\r\n") || crate::text::reads(s.as_slice(), "\n") || s.len()
        == 0
}

} // verus!
