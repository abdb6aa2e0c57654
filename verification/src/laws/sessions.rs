//! What one connection to one address does next, from what has come of it.

use vstd::prelude::*;

use crate::config::{ConfigView, TargetSessionAttrs};
use crate::error::{ErrorKind, ErrorView, IoErrorKind};
use crate::session::{
    keepalive_of, once, socket_options_of, OnceAction, OnceActionView, OnceEvent, OnceEventView,
    OnceStep, SimpleQueryMessage,
};

verus! {

/// Events and actions stand for themselves.
pub proof fn session_steps_stand_for_themselves(event: OnceEvent, action: OnceAction)
    ensures
        match event {
            OnceEvent::Succeeded => event@ is Succeeded,
            OnceEvent::Message(Some(SimpleQueryMessage::Row(Some(value)))) => event@
                == OnceEventView::Row(Some(value@)),
            OnceEvent::Message(Some(SimpleQueryMessage::Row(None))) => event@
                == OnceEventView::Row(None),
            OnceEvent::Message(Some(SimpleQueryMessage::Other)) => event@ is OtherMessage,
            OnceEvent::Message(None) => event@ is EndOfAnswer,
            OnceEvent::Failed(e) => event@ == OnceEventView::Failed(e@),
        },
        match action {
            OnceAction::OpenSocket(options) => action@ == OnceActionView::OpenSocket(options),
            OnceAction::MakeTls(domain) => action@ == OnceActionView::MakeTls(domain@),
            OnceAction::Handshake(has_hostname) => action@ == OnceActionView::Handshake(
                has_hostname,
            ),
            OnceAction::Query => action@ is Query,
            OnceAction::ReadMessage => action@ is ReadMessage,
            OnceAction::Finish => action@ is Finish,
            OnceAction::Fail(e) => action@ == OnceActionView::Fail(e@),
        },
{
}

/// A failure ends a connection with what went wrong, whatever the settings and
/// whatever it was waiting for.
pub proof fn a_failure_ends_a_connection(
    config: ConfigView,
    hostname: Option<Seq<char>>,
    step: OnceStep,
    e: ErrorView,
)
    ensures
        once(config, hostname, step, OnceEventView::Failed(e)).0 == OnceStep::Done,
        once(config, hostname, step, OnceEventView::Failed(e)).1 == OnceActionView::Fail(e),
{
}

/// After the socket comes TLS, for the name of the server, or for an empty one where
/// it has none; after that the handshake, which is told whether it has one. The
/// settings make no difference.
pub proof fn a_connection_is_set_up_for_the_name_of_its_server(
    config: ConfigView,
    hostname: Option<Seq<char>>,
    event: OnceEventView,
)
    requires
        event !is Failed,
    ensures
        once(config, hostname, OnceStep::Socket, event).0 == OnceStep::Tls,
        once(config, hostname, OnceStep::Socket, event).1 matches OnceActionView::MakeTls(name)
            && match hostname {
            Some(given) => name == given,
            None => name == ""@,
        },
        once(config, hostname, OnceStep::Tls, event).0 == OnceStep::Handshake,
        once(config, hostname, OnceStep::Tls, event).1 == OnceActionView::Handshake(
            hostname is Some,
        ),
{
}

/// After the handshake, a session that must allow writes is asked whether it is
/// read-only, and any other is handed over.
pub proof fn a_session_is_asked_only_if_it_must_allow_writes(
    config: ConfigView,
    hostname: Option<Seq<char>>,
    event: OnceEventView,
)
    requires
        event !is Failed,
    ensures
        ({
            let next = once(config, hostname, OnceStep::Handshake, event);
            &&& config.target_session_attrs == TargetSessionAttrs::ReadWrite ==> next
                == (OnceStep::Query, OnceActionView::Query)
            &&& config.target_session_attrs == TargetSessionAttrs::Any ==> next == (
                OnceStep::Done,
                OnceActionView::Finish,
            )
        }),
        once(config, hostname, OnceStep::Query, event) == (
            OnceStep::Answer,
            OnceActionView::ReadMessage,
        ),
{
}

/// The first row of the answer decides: a session that says `on` is refused as
/// read-only, and one that says anything else, or nothing, is handed over. Other
/// messages are passed over, and an answer that ends without a row is unexpected.
pub proof fn the_first_row_of_the_answer_decides(
    config: ConfigView,
    hostname: Option<Seq<char>>,
    value: Option<Seq<char>>,
)
    ensures
        ({
            let (step, action) = once(
                config,
                hostname,
                OnceStep::Answer,
                OnceEventView::Row(value),
            );
            &&& step == OnceStep::Done
            &&& value != Some("on"@) ==> action is Finish
            &&& value == Some("on"@) ==> {
                &&& action matches OnceActionView::Fail(e)
                &&& e.kind == ErrorKind::Connect(IoErrorKind::PermissionDenied)
                &&& e.message == "error connecting to server"@
                &&& e.causes == seq!["database does not allow writes"@]
            }
        }),
        ({
            let (step, action) = once(
                config,
                hostname,
                OnceStep::Answer,
                OnceEventView::EndOfAnswer,
            );
            &&& step == OnceStep::Done
            &&& action matches OnceActionView::Fail(e)
            &&& e.kind == ErrorKind::UnexpectedMessage
            &&& e.message == "unexpected message from server"@
            &&& e.causes.len() == 0
        }),
        once(config, hostname, OnceStep::Answer, OnceEventView::OtherMessage) == (
            OnceStep::Answer,
            OnceActionView::ReadMessage,
        ),
        once(config, hostname, OnceStep::Answer, OnceEventView::Succeeded) == (
            OnceStep::Answer,
            OnceActionView::ReadMessage,
        ),
{
}

/// A connection that is done stays so, unless something fails.
pub proof fn a_connection_that_is_done_stays_done(
    config: ConfigView,
    hostname: Option<Seq<char>>,
    event: OnceEventView,
)
    requires
        event !is Failed,
    ensures
        once(config, hostname, OnceStep::Done, event) == (OnceStep::Done, OnceActionView::Finish),
{
}

/// A socket is opened with the timeouts that are configured, and with the keepalive
/// settings if keepalive is on.
pub proof fn a_socket_is_opened_as_configured(config: ConfigView)
    ensures
        socket_options_of(config).connect_timeout == config.connect_timeout,
        socket_options_of(config).tcp_user_timeout == config.tcp_user_timeout,
        socket_options_of(config).keepalive == keepalive_of(config),
        keepalive_of(config) is Some <==> config.keepalives,
        keepalive_of(config) matches Some(k) ==> k == config.keepalive_config,
{
}

} // verus!
