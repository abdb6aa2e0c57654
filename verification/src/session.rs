//! One connection to one address, step by step.
//!
//! The caller performs each action that it is given and says how it went. What
//! comes next is decided here.

use vstd::prelude::*;
use vstd::string::*;

use crate::config::{Config, ConfigView, KeepaliveConfig, Nanos, TargetSessionAttrs};
use crate::error::{connect_error, unexpected_message_error, Error, ErrorView, IoErrorKind};
use crate::target::{optional_text, Addr};
use crate::text::is_text;

verus! {

/// How a socket is opened.
#[derive(Debug, Clone, Copy, PartialEq, Eq)]
pub struct SocketOptions {
    pub connect_timeout: Option<Nanos>,
    pub tcp_user_timeout: Option<Nanos>,
    pub keepalive: Option<KeepaliveConfig>,
}

/// How a connection was made, for whoever has to make another like it.
#[derive(Debug, PartialEq, Eq)]
pub struct SocketConfig {
    pub addr: Addr,
    pub hostname: Option<String>,
    pub port: u16,
    pub connect_timeout: Option<Nanos>,
    pub tcp_user_timeout: Option<Nanos>,
    pub keepalive: Option<KeepaliveConfig>,
}

/// A message in answer to a simple query: a row, with the value of its first
/// column, or something else.
#[derive(Debug, PartialEq, Eq)]
pub enum SimpleQueryMessage {
    Row(Option<String>),
    Other,
}

/// What a connection is waiting for.
#[derive(Debug, Clone, Copy, PartialEq, Eq, Structural)]
pub enum OnceStep {
    /// The socket.
    Socket,
    /// The TLS connector.
    Tls,
    /// The handshake.
    Handshake,
    /// The query whether the session is read-only.
    Query,
    /// The answer to that query.
    Answer,
    /// Nothing.
    Done,
}

/// What came of what a connection was waiting for.
#[derive(Debug, PartialEq, Eq)]
pub enum OnceEvent {
    /// It is there.
    Succeeded,
    /// A message of the answer, or its end.
    Message(Option<SimpleQueryMessage>),
    /// It failed.
    Failed(Error),
}

/// What to do next for a connection.
#[derive(Debug, PartialEq, Eq)]
pub enum OnceAction {
    /// Open the socket.
    OpenSocket(SocketOptions),
    /// Make a TLS connector for this name.
    MakeTls(String),
    /// Shake hands, with a server that has a name or one that has none.
    Handshake(bool),
    /// Ask whether the session is read-only.
    Query,
    /// Wait for the next message of the answer.
    ReadMessage,
    /// Hand the connection over.
    Finish,
    /// Fail.
    Fail(Error),
}

/// What a [`OnceEvent`] stands for.
pub enum OnceEventView {
    Succeeded,
    Row(Option<Seq<char>>),
    OtherMessage,
    EndOfAnswer,
    Failed(ErrorView),
}

/// What a [`OnceAction`] stands for.
pub enum OnceActionView {
    OpenSocket(SocketOptions),
    MakeTls(Seq<char>),
    Handshake(bool),
    Query,
    ReadMessage,
    Finish,
    Fail(ErrorView),
}

impl View for OnceEvent {
    type V = OnceEventView;

    open spec fn view(&self) -> OnceEventView {
        match self {
            OnceEvent::Succeeded => OnceEventView::Succeeded,
            OnceEvent::Message(Some(SimpleQueryMessage::Row(value))) => OnceEventView::Row(
                optional_text(*value),
            ),
            OnceEvent::Message(Some(SimpleQueryMessage::Other)) => OnceEventView::OtherMessage,
            OnceEvent::Message(None) => OnceEventView::EndOfAnswer,
            OnceEvent::Failed(e) => OnceEventView::Failed(e@),
        }
    }
}

impl View for OnceAction {
    type V = OnceActionView;

    open spec fn view(&self) -> OnceActionView {
        match self {
            OnceAction::OpenSocket(options) => OnceActionView::OpenSocket(*options),
            OnceAction::MakeTls(domain) => OnceActionView::MakeTls(domain@),
            OnceAction::Handshake(has_hostname) => OnceActionView::Handshake(*has_hostname),
            OnceAction::Query => OnceActionView::Query,
            OnceAction::ReadMessage => OnceActionView::ReadMessage,
            OnceAction::Finish => OnceActionView::Finish,
            OnceAction::Fail(e) => OnceActionView::Fail(e@),
        }
    }
}

/// The keepalive settings, if keepalive is on.
pub open spec fn keepalive_of(config: ConfigView) -> Option<KeepaliveConfig> {
    if config.keepalives {
        Some(config.keepalive_config)
    } else {
        None
    }
}

/// How a socket is opened under the given settings.
pub open spec fn socket_options_of(config: ConfigView) -> SocketOptions {
    SocketOptions {
        connect_timeout: config.connect_timeout,
        tcp_user_timeout: config.tcp_user_timeout,
        keepalive: keepalive_of(config),
    }
}

/// What follows from an event: what is waited for then, and what to do.
///
/// A session that must allow writes is asked whether it is read-only. The first
/// row of the answer decides.
pub open spec fn once(
    config: ConfigView,
    hostname: Option<Seq<char>>,
    step: OnceStep,
    event: OnceEventView,
) -> (OnceStep, OnceActionView) {
    match (step, event) {
        (_, OnceEventView::Failed(e)) => (OnceStep::Done, OnceActionView::Fail(e)),
        (OnceStep::Socket, _) => (
            OnceStep::Tls,
            OnceActionView::MakeTls(
                match hostname {
                    Some(name) => name,
                    None => ""@,
                },
            ),
        ),
        (OnceStep::Tls, _) => (
            OnceStep::Handshake,
            OnceActionView::Handshake(hostname is Some),
        ),
        (OnceStep::Handshake, _) => if config.target_session_attrs
            == TargetSessionAttrs::ReadWrite {
            (OnceStep::Query, OnceActionView::Query)
        } else {
            (OnceStep::Done, OnceActionView::Finish)
        },
        (OnceStep::Query, _) => (OnceStep::Answer, OnceActionView::ReadMessage),
        (OnceStep::Answer, OnceEventView::Row(value)) => if value == Some("on"@) {
            (
                OnceStep::Done,
                OnceActionView::Fail(
                    connect_error(
                        IoErrorKind::PermissionDenied,
                        "database does not allow writes"@,
                    ),
                ),
            )
        } else {
            (OnceStep::Done, OnceActionView::Finish)
        },
        (OnceStep::Answer, OnceEventView::EndOfAnswer) => (
            OnceStep::Done,
            OnceActionView::Fail(unexpected_message_error()),
        ),
        (OnceStep::Answer, _) => (OnceStep::Answer, OnceActionView::ReadMessage),
        (OnceStep::Done, _) => (OnceStep::Done, OnceActionView::Finish),
    }
}

fn keepalive(config: &Config) -> (r: Option<KeepaliveConfig>)
    ensures
        r == keepalive_of(config@),
{
    if config.keepalives {
        Some(config.keepalive_config)
    } else {
        None
    }
}

/// The query whether the session is read-only.
pub fn read_only_query() -> (r: &'static str)
    ensures
        r@ == "SHOW transaction_read_only"@,
{
    "SHOW transaction_read_only"
}

/// Begins a connection: with the socket.
pub fn connect_once_start(config: &Config) -> (r: (OnceStep, OnceAction))
    ensures
        r.0 == OnceStep::Socket,
        r.1@ == OnceActionView::OpenSocket(socket_options_of(config@)),
{
    let options = SocketOptions {
        connect_timeout: config.connect_timeout,
        tcp_user_timeout: config.tcp_user_timeout,
        keepalive: keepalive(config),
    };
    (OnceStep::Socket, OnceAction::OpenSocket(options))
}

/// Goes on once something has come of what `step` waits for.
pub fn connect_once_step(
    config: &Config,
    hostname: &Option<String>,
    step: OnceStep,
    event: OnceEvent,
) -> (r: (OnceStep, OnceAction))
    ensures
        (r.0, r.1@) == once(config@, optional_text(*hostname), step, event@),
{
    let message: Option<SimpleQueryMessage> = match event {
        OnceEvent::Failed(e) => {
            return (OnceStep::Done, OnceAction::Fail(e));
        },
        OnceEvent::Succeeded => Some(SimpleQueryMessage::Other),
        OnceEvent::Message(message) => message,
    };
    match step {
        OnceStep::Socket => {
            let domain: String = match hostname {
                Some(name) => name.clone(),
                None => "".to_owned(),
            };
            (OnceStep::Tls, OnceAction::MakeTls(domain))
        },
        OnceStep::Tls => (OnceStep::Handshake, OnceAction::Handshake(hostname.is_some())),
        OnceStep::Handshake => if config.target_session_attrs == TargetSessionAttrs::ReadWrite {
            (OnceStep::Query, OnceAction::Query)
        } else {
            (OnceStep::Done, OnceAction::Finish)
        },
        OnceStep::Query => (OnceStep::Answer, OnceAction::ReadMessage),
        OnceStep::Answer => match message {
            Some(SimpleQueryMessage::Row(value)) => {
                let read_only: bool = match value {
                    Some(text) => is_text(&text, "on"),
                    None => false,
                };
                if read_only {
                    let e: Error = Error::connect(
                        IoErrorKind::PermissionDenied,
                        "database does not allow writes".to_owned(),
                    );
                    (OnceStep::Done, OnceAction::Fail(e))
                } else {
                    (OnceStep::Done, OnceAction::Finish)
                }
            },
            Some(SimpleQueryMessage::Other) => (OnceStep::Answer, OnceAction::ReadMessage),
            None => (OnceStep::Done, OnceAction::Fail(Error::unexpected_message())),
        },
        OnceStep::Done => (OnceStep::Done, OnceAction::Finish),
    }
}

/// Describes how a connection was made.
pub fn socket_config(
    addr: Addr,
    hostname: Option<String>,
    port: u16,
    config: &Config,
) -> (r: SocketConfig)
    ensures
        r == (SocketConfig {
            addr,
            hostname,
            port,
            connect_timeout: config@.connect_timeout,
            tcp_user_timeout: config@.tcp_user_timeout,
            keepalive: keepalive_of(config@),
        }),
{
    SocketConfig {
        addr,
        hostname,
        port,
        connect_timeout: config.connect_timeout,
        tcp_user_timeout: config.tcp_user_timeout,
        keepalive: keepalive(config),
    }
}

/// The name that a control connection was made under: the empty one, where it
/// is not known how the connection was made.
pub fn control_host(socket_config: Option<SocketConfig>) -> (r: String)
    requires
        socket_config matches Some(made) ==> made.hostname is Some,
    ensures
        match socket_config {
            Some(made) => r@ == made.hostname->0@,
            None => r@ == Seq::<char>::empty(),
        },
{
    match socket_config {
        Some(made) => made.hostname.unwrap(),
        None => String::new(),
    }
}

} // verus!
