//! Passing a body on from one end to the other.

use crate::header::BodyFraming;
use crate::number::{number, read_number};
use crate::protocol::{
    blank, is_blank, Action, ActionModel, ErrorModel, Event, EventModel, Peer, ProxyError,
};
use crate::text::{before, chars_of, find, trim, trimmed};
use vstd::prelude::*;
use vstd::slice::slice_subrange;

verus! {

/// The size that the line in front of a chunk gives: a hexadecimal number of
/// 64 bits, in front of the first semicolon.
pub open spec fn chunk_size(line: Seq<char>) -> Option<nat> {
    number(trim(before(line, ';')), 16, u64::MAX as nat)
}

/// Reads the size off the line in front of a chunk.
pub fn parse_chunk_size(line: &str) -> (r: Option<u64>)
    ensures
        match r {
            Some(n) => chunk_size(line@) == Some(n as nat),
            None => chunk_size(line@) is None,
        },
{
    let chars = chars_of(line);
    let end: usize = find(chars.as_slice(), ';');
    let size_text = slice_subrange(chars.as_slice(), 0, end);
    assert(size_text@ == before(chars@, ';'));
    read_number(trimmed(size_text), 16, u64::MAX)
}

/// How far the passing on of a body has come.
pub enum BodyState {
    /// The line in front of a chunk is to be read.
    Size,
    /// The line in front of a chunk is to be passed on.
    ForwardSize(String),
    /// That many bytes are to be passed on: a chunk and its line end.
    Chunk(u64),
    /// A line behind the last chunk is to be read.
    Trailer,
    /// A line behind the last chunk is to be passed on.
    ForwardTrailer(String),
    /// That many bytes, the whole body, are to be passed on.
    Fixed(u64),
    /// The whole body was passed on.
    Complete,
    /// The body could not be passed on.
    Broken(ProxyError),
}

/// The model of a `BodyState`.
pub enum BodyStateModel {
    Size,
    ForwardSize(Seq<char>),
    Chunk(u64),
    Trailer,
    ForwardTrailer(Seq<char>),
    Fixed(u64),
    Complete,
    Broken(ErrorModel),
}

impl View for BodyState {
    type V = BodyStateModel;

    open spec fn view(&self) -> BodyStateModel {
        match self {
            BodyState::Size => BodyStateModel::Size,
            BodyState::ForwardSize(line) => BodyStateModel::ForwardSize(line@),
            BodyState::Chunk(n) => BodyStateModel::Chunk(*n),
            BodyState::Trailer => BodyStateModel::Trailer,
            BodyState::ForwardTrailer(line) => BodyStateModel::ForwardTrailer(line@),
            BodyState::Fixed(n) => BodyStateModel::Fixed(*n),
            BodyState::Complete => BodyStateModel::Complete,
            BodyState::Broken(error) => BodyStateModel::Broken(error@),
        }
    }
}

/// The passing on of a body from one end to the other.
pub struct BodyCopy {
    pub from: Peer,
    pub to: Peer,
    pub state: BodyState,
}

/// The model of a `BodyCopy`.
pub struct BodyModel {
    pub from: Peer,
    pub to: Peer,
    pub state: BodyStateModel,
}

impl View for BodyCopy {
    type V = BodyModel;

    open spec fn view(&self) -> BodyModel {
        BodyModel { from: self.from, to: self.to, state: self.state@ }
    }
}

impl BodyModel {
    /// The beginning: chunks, if there are any, come before a length; without
    /// either there is no body.
    pub open spec fn start(from: Peer, to: Peer, framing: BodyFraming) -> BodyModel {
        BodyModel {
            from,
            to,
            state: if framing.chunked {
                BodyStateModel::Size
            } else {
                match framing.content_length {
                    Some(n) => BodyStateModel::Fixed(n),
                    None => BodyStateModel::Complete,
                }
            },
        }
    }

    /// What is to be done next.
    pub open spec fn action(self) -> ActionModel {
        match self.state {
            BodyStateModel::Size | BodyStateModel::Trailer => ActionModel::ReadLine {
                from: self.from,
            },
            BodyStateModel::ForwardSize(line) => ActionModel::Write { to: self.to, text: line },
            BodyStateModel::ForwardTrailer(line) => ActionModel::Write { to: self.to, text: line },
            BodyStateModel::Chunk(n) => ActionModel::Copy {
                from: self.from,
                to: self.to,
                limit: Some(n),
            },
            BodyStateModel::Fixed(n) => ActionModel::Copy {
                from: self.from,
                to: self.to,
                limit: Some(n),
            },
            _ => ActionModel::Stop,
        }
    }

    /// The chunk whose size line was passed on, with its line end, has a length
    /// that fits in 64 bits.
    pub open spec fn in_range(self, event: EventModel) -> bool {
        match (self.state, event) {
            (BodyStateModel::ForwardSize(line), EventModel::Done) => match chunk_size(line) {
                Some(n) => n + 2 <= u64::MAX,
                None => true,
            },
            _ => true,
        }
    }

    /// Nothing is left to be done.
    pub open spec fn ended(self) -> bool {
        self.state is Complete || self.state is Broken
    }

    /// The passing on after an event; one that is no answer changes nothing.
    pub open spec fn next(self, event: EventModel) -> BodyModel {
        let state = match (self.state, event) {
            (BodyStateModel::Size, EventModel::Line(line)) => BodyStateModel::ForwardSize(line),
            (BodyStateModel::ForwardSize(line), EventModel::Done) => match chunk_size(line) {
                None => BodyStateModel::Broken(ErrorModel::InvalidChunkSize),
                Some(n) => if n == 0 {
                    BodyStateModel::Trailer
                } else {
                    BodyStateModel::Chunk((n + 2) as u64)
                },
            },
            (BodyStateModel::Chunk(_), EventModel::Done) => BodyStateModel::Size,
            (BodyStateModel::Trailer, EventModel::Line(line)) => BodyStateModel::ForwardTrailer(
                line,
            ),
            (BodyStateModel::ForwardTrailer(line), EventModel::Done) => if is_blank(line) {
                BodyStateModel::Complete
            } else {
                BodyStateModel::Trailer
            },
            (BodyStateModel::Fixed(_), EventModel::Done) => BodyStateModel::Complete,
            (state, EventModel::Failed(reason)) => if self.ended() {
                state
            } else {
                BodyStateModel::Broken(ErrorModel::Io(reason))
            },
            (state, _) => state,
        };
        BodyModel { state, ..self }
    }
}

impl BodyCopy {
    /// Starts to pass on a body of the given extent.
    pub fn start(from: Peer, to: Peer, framing: BodyFraming) -> (r: BodyCopy)
        ensures
            r@ == BodyModel::start(from, to, framing),
    {
        let state = if framing.chunked {
            BodyState::Size
        } else {
            match framing.content_length {
                Some(n) => BodyState::Fixed(n),
                None => BodyState::Complete,
            }
        };
        BodyCopy { from, to, state }
    }

    /// What is to be done next.
    pub fn action(&self) -> (r: Action)
        ensures
            r@ == self@.action(),
    {
        match &self.state {
            BodyState::Size | BodyState::Trailer => Action::ReadLine { from: self.from },
            BodyState::ForwardSize(line) => Action::Write {
                to: self.to,
                text: line.clone(),
            },
            BodyState::ForwardTrailer(line) => Action::Write {
                to: self.to,
                text: line.clone(),
            },
            BodyState::Chunk(n) => Action::Copy { from: self.from, to: self.to, limit: Some(*n) },
            BodyState::Fixed(n) => Action::Copy { from: self.from, to: self.to, limit: Some(*n) },
            BodyState::Complete | BodyState::Broken(_) => Action::Stop,
        }
    }

    /// Tells whether `next` can be given the event.
    pub fn accepts(&self, event: &Event) -> (r: bool)
        ensures
            r == self@.in_range(event@),
    {
        match (&self.state, event) {
            (BodyState::ForwardSize(line), Event::Done) => match parse_chunk_size(line.as_str()) {
                Some(n) => n <= u64::MAX - 2,
                None => true,
            },
            _ => true,
        }
    }

    /// Goes on with what came of the last action.
    pub fn next(self, event: Event) -> (r: BodyCopy)
        requires
            self@.in_range(event@),
        ensures
            r@ == self@.next(event@),
    {
        let from = self.from;
        let to = self.to;
        let state = match (self.state, event) {
            (BodyState::Size, Event::Line(line)) => BodyState::ForwardSize(line),
            (BodyState::ForwardSize(line), Event::Done) => match parse_chunk_size(line.as_str()) {
                None => BodyState::Broken(ProxyError::InvalidChunkSize),
                Some(n) => if n == 0 {
                    BodyState::Trailer
                } else {
                    BodyState::Chunk(n + 2)
                },
            },
            (BodyState::Chunk(_), Event::Done) => BodyState::Size,
            (BodyState::Trailer, Event::Line(line)) => BodyState::ForwardTrailer(line),
            (BodyState::ForwardTrailer(line), Event::Done) => if blank(line.as_str()) {
                BodyState::Complete
            } else {
                BodyState::Trailer
            },
            (BodyState::Fixed(_), Event::Done) => BodyState::Complete,
            (BodyState::Complete, _) => BodyState::Complete,
            (BodyState::Broken(error), _) => BodyState::Broken(error),
            (_, Event::Failed(reason)) => BodyState::Broken(ProxyError::Io(reason)),
            (state, _) => state,
        };
        BodyCopy { from, to, state }
    }
}

} // verus!
