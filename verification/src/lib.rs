//! The decisions of an HTTP proxy that forwards traffic through a SOCKS5
//! server.
//!
//! Nothing here reads or writes. A [`session::Session`] says what is to be done
//! next with a client's connection ([`protocol::Action`]); its caller does it
//! and tells what came of it ([`protocol::Event`]), until the session stops and
//! gives its outcome. It is made of smaller machines of the same kind: for the
//! head of a request ([`request::HeadReader`]), an exchange
//! ([`exchange::HttpExchange`]), a body ([`body::BodyCopy`]), a response
//! ([`relay::ResponseRelay`]), the opening of a tunnel
//! ([`connect::ConnectExchange`]) and the tunnel itself ([`tunnel::Tunnel`]).
//!
//! Each machine has a model, its view. The contracts say that the machine moves
//! as its model does. What holds of whole connections is stated of the models,
//! in [`laws`] and [`transcript`]; which steps a request calls for, from the
//! lines on the wire to the end, in [`service`]. What texts, messages, files and
//! counters have to say is stated in terms of what they are put together from, in
//! [`text_laws`], [`message_laws`], [`request_laws`], [`config_laws`],
//! [`log_laws`] and [`tunnel_laws`].
//!
//! Text is modelled as the sequence of its characters.

pub mod body;
pub mod config;
pub mod config_laws;
pub mod connect;
pub mod exchange;
pub mod header;
pub mod laws;
pub mod log;
pub mod log_laws;
pub mod message_laws;
pub mod number;
pub mod protocol;
pub mod relay;
pub mod request;
pub mod request_laws;
pub mod runtime;
pub mod service;
pub mod session;
pub mod status;
pub mod text;
pub mod text_laws;
pub mod transcript;
pub mod transfer;
pub mod tunnel;
pub mod tunnel_laws;
