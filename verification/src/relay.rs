//! Passing a response on to the client.

use crate::body::{BodyCopy, BodyModel, BodyState, BodyStateModel};
use crate::header::{body_framing, forwarded, framing, joined, push_forwarded, texts};
use crate::protocol::{
    blank, is_blank, Action, ActionModel, ErrorModel, Event, EventModel, Peer, ProxyError,
};
use crate::status::{
    ends_by_itself, has_body, response_has_body, response_has_self_defined_length,
};
use vstd::prelude::*;
use vstd::string::StringExecFns;

verus! {

/// How far the passing on of a response has come.
pub enum RelayState {
    /// The status line is to be read.
    Status,
    /// The status line is to be passed on.
    ForwardStatus { status_line: String },
    /// A header line, or the line behind the last of them, is to be read.
    Headers { status_line: String, headers: Vec<String> },
    /// The headers are to be passed on.
    ForwardHead { status_line: String, headers: Vec<String> },
    /// A body of known extent is to be passed on.
    Body { body: BodyCopy, reuse: bool },
    /// All that the upstream server sends is to be passed on.
    Drain { reuse: bool },
    /// The whole response was passed on; `reuse` tells whether the client could
    /// tell where it ended.
    Complete { reuse: bool },
    /// The response could not be passed on.
    Broken(ProxyError),
}

/// The model of a `RelayState`.
pub enum RelayStateModel {
    Status,
    ForwardStatus { status_line: Seq<char> },
    Headers { status_line: Seq<char>, headers: Seq<Seq<char>> },
    ForwardHead { status_line: Seq<char>, headers: Seq<Seq<char>> },
    Body { body: BodyModel, reuse: bool },
    Drain { reuse: bool },
    Complete { reuse: bool },
    Broken(ErrorModel),
}

impl View for RelayState {
    type V = RelayStateModel;

    open spec fn view(&self) -> RelayStateModel {
        match self {
            RelayState::Status => RelayStateModel::Status,
            RelayState::ForwardStatus { status_line } => RelayStateModel::ForwardStatus {
                status_line: status_line@,
            },
            RelayState::Headers { status_line, headers } => RelayStateModel::Headers {
                status_line: status_line@,
                headers: texts(headers@),
            },
            RelayState::ForwardHead { status_line, headers } => RelayStateModel::ForwardHead {
                status_line: status_line@,
                headers: texts(headers@),
            },
            RelayState::Body { body, reuse } => RelayStateModel::Body {
                body: body@,
                reuse: *reuse,
            },
            RelayState::Drain { reuse } => RelayStateModel::Drain { reuse: *reuse },
            RelayState::Complete { reuse } => RelayStateModel::Complete { reuse: *reuse },
            RelayState::Broken(error) => RelayStateModel::Broken(error@),
        }
    }
}

/// The passing on of the response to a request with the method `method`.
pub struct ResponseRelay {
    pub method: String,
    pub state: RelayState,
}

/// The model of a `ResponseRelay`.
pub struct RelayModel {
    pub method: Seq<char>,
    pub state: RelayStateModel,
}

impl View for ResponseRelay {
    type V = RelayModel;

    open spec fn view(&self) -> RelayModel {
        RelayModel { method: self.method@, state: self.state@ }
    }
}

/// The text behind the status line of a response that is passed on: the headers
/// that are passed on, and an empty line.
pub open spec fn client_headers(headers: Seq<Seq<char>>) -> Seq<char> {
    joined(forwarded(headers)) + "\r\n"@
}

/// What follows when the head of a response was passed on.
pub open spec fn after_head(
    method: Seq<char>,
    status_line: Seq<char>,
    headers: Seq<Seq<char>>,
) -> RelayStateModel {
    let framing = framing(headers);
    let reuse = ends_by_itself(method, status_line, framing);
    if !has_body(method, status_line) {
        RelayStateModel::Complete { reuse }
    } else if framing.chunked || framing.content_length is Some {
        RelayStateModel::Body {
            body: BodyModel::start(Peer::Upstream, Peer::Client, framing),
            reuse,
        }
    } else {
        RelayStateModel::Drain { reuse }
    }
}

impl RelayModel {
    /// The beginning.
    pub open spec fn start(method: Seq<char>) -> RelayModel {
        RelayModel { method, state: RelayStateModel::Status }
    }

    /// What is to be done next.
    pub open spec fn action(self) -> ActionModel {
        match self.state {
            RelayStateModel::Status => ActionModel::ReadLine { from: Peer::Upstream },
            RelayStateModel::ForwardStatus { status_line } => ActionModel::Write {
                to: Peer::Client,
                text: status_line,
            },
            RelayStateModel::Headers { .. } => ActionModel::ReadLine { from: Peer::Upstream },
            RelayStateModel::ForwardHead { headers, .. } => ActionModel::Write {
                to: Peer::Client,
                text: client_headers(headers),
            },
            RelayStateModel::Body { body, .. } => body.action(),
            RelayStateModel::Drain { .. } => ActionModel::Copy {
                from: Peer::Upstream,
                to: Peer::Client,
                limit: None,
            },
            _ => ActionModel::Stop,
        }
    }

    /// Chunk lengths fit in 64 bits.
    pub open spec fn in_range(self, event: EventModel) -> bool {
        match self.state {
            RelayStateModel::Body { body, .. } => body.in_range(event),
            _ => true,
        }
    }

    /// What holds at every time: a body under way goes to the client, and
    /// something is left of it.
    pub open spec fn valid(self) -> bool {
        match self.state {
            RelayStateModel::Body { body, .. } => {
                &&& body.from == Peer::Upstream
                &&& body.to == Peer::Client
                &&& !body.ended()
            },
            _ => true,
        }
    }

    /// Nothing is left to be done.
    pub open spec fn ended(self) -> bool {
        self.state is Complete || self.state is Broken
    }

    /// The passing on after an event; one that is no answer changes nothing.
    pub open spec fn next(self, event: EventModel) -> RelayModel {
        let state = match (self.state, event) {
            (RelayStateModel::Status, EventModel::Line(line)) => if line.len() == 0 {
                RelayStateModel::Broken(ErrorModel::EmptyResponse)
            } else {
                RelayStateModel::ForwardStatus { status_line: line }
            },
            (RelayStateModel::ForwardStatus { status_line }, EventModel::Done) => {
                RelayStateModel::Headers { status_line, headers: Seq::empty() }
            },
            (RelayStateModel::Headers { status_line, headers }, EventModel::Line(line)) => {
                if is_blank(line) {
                    RelayStateModel::ForwardHead { status_line, headers }
                } else {
                    RelayStateModel::Headers { status_line, headers: headers.push(line) }
                }
            },
            (RelayStateModel::ForwardHead { status_line, headers }, EventModel::Done) => after_head(
                self.method,
                status_line,
                headers,
            ),
            (RelayStateModel::Body { body, reuse }, event) => {
                let body = body.next(event);
                match body.state {
                    BodyStateModel::Complete => RelayStateModel::Complete { reuse },
                    BodyStateModel::Broken(error) => RelayStateModel::Broken(error),
                    _ => RelayStateModel::Body { body, reuse },
                }
            },
            (RelayStateModel::Drain { reuse }, EventModel::Done) => RelayStateModel::Complete {
                reuse,
            },
            (state, EventModel::Failed(reason)) => if self.ended() {
                state
            } else {
                RelayStateModel::Broken(ErrorModel::Io(reason))
            },
            (state, _) => state,
        };
        RelayModel { state, ..self }
    }
}

/// Decides what follows when the head of a response was passed on.
fn follow_head(method: &str, status_line: &str, headers: &[String]) -> (r: RelayState)
    ensures
        r@ == after_head(method@, status_line@, texts(headers@)),
{
    let framing = body_framing(headers);
    let reuse = response_has_self_defined_length(method, status_line, framing);
    if !response_has_body(method, status_line) {
        RelayState::Complete { reuse }
    } else if framing.chunked || framing.content_length.is_some() {
        RelayState::Body { body: BodyCopy::start(Peer::Upstream, Peer::Client, framing), reuse }
    } else {
        RelayState::Drain { reuse }
    }
}

impl ResponseRelay {
    /// Starts to pass on the response to a request.
    pub fn start(method: String) -> (r: ResponseRelay)
        ensures
            r@ == RelayModel::start(method@),
    {
        ResponseRelay { method, state: RelayState::Status }
    }

    /// What is to be done next.
    pub fn action(&self) -> (r: Action)
        ensures
            r@ == self@.action(),
    {
        match &self.state {
            RelayState::Status => Action::ReadLine { from: Peer::Upstream },
            RelayState::ForwardStatus { status_line } => Action::Write {
                to: Peer::Client,
                text: status_line.clone(),
            },
            RelayState::Headers { .. } => Action::ReadLine { from: Peer::Upstream },
            RelayState::ForwardHead { headers, .. } => {
                let mut text = String::new();
                push_forwarded(&mut text, headers.as_slice());
                text.append("\r\n");
                assert(text@ =~= client_headers(texts(headers@)));
                Action::Write { to: Peer::Client, text }
            },
            RelayState::Body { body, .. } => body.action(),
            RelayState::Drain { .. } => Action::Copy {
                from: Peer::Upstream,
                to: Peer::Client,
                limit: None,
            },
            RelayState::Complete { .. } | RelayState::Broken(_) => Action::Stop,
        }
    }

    /// Tells whether `next` can be given the event.
    pub fn accepts(&self, event: &Event) -> (r: bool)
        ensures
            r == self@.in_range(event@),
    {
        match &self.state {
            RelayState::Body { body, .. } => body.accepts(event),
            _ => true,
        }
    }

    /// Goes on with what came of the last action.
    pub fn next(self, event: Event) -> (r: ResponseRelay)
        requires
            self@.in_range(event@),
        ensures
            r@ == self@.next(event@),
    {
        let method = self.method;
        let state = match (self.state, event) {
            (RelayState::Status, Event::Line(line)) => if line.as_str().is_empty() {
                RelayState::Broken(ProxyError::EmptyResponse)
            } else {
                RelayState::ForwardStatus { status_line: line }
            },
            (RelayState::ForwardStatus { status_line }, Event::Done) => {
                let headers: Vec<String> = Vec::new();
                assert(texts(headers@) =~= Seq::empty());
                RelayState::Headers { status_line, headers }
            },
            (RelayState::Headers { status_line, mut headers }, Event::Line(line)) => {
                if blank(line.as_str()) {
                    RelayState::ForwardHead { status_line, headers }
                } else {
                    let ghost before = headers@;
                    headers.push(line);
                    assert(texts(headers@) =~= texts(before).push(line@));
                    RelayState::Headers { status_line, headers }
                }
            },
            (RelayState::ForwardHead { status_line, headers }, Event::Done) => follow_head(
                method.as_str(),
                status_line.as_str(),
                headers.as_slice(),
            ),
            (RelayState::Body { body, reuse }, event) => {
                let body = body.next(event);
                match body.state {
                    BodyState::Complete => RelayState::Complete { reuse },
                    BodyState::Broken(error) => RelayState::Broken(error),
                    state => RelayState::Body {
                        body: BodyCopy { from: body.from, to: body.to, state },
                        reuse,
                    },
                }
            },
            (RelayState::Drain { reuse }, Event::Done) => RelayState::Complete { reuse },
            (RelayState::Complete { reuse }, _) => RelayState::Complete { reuse },
            (RelayState::Broken(error), _) => RelayState::Broken(error),
            (_, Event::Failed(reason)) => RelayState::Broken(ProxyError::Io(reason)),
            (state, _) => state,
        };
        ResponseRelay { method, state }
    }
}

} // verus!
