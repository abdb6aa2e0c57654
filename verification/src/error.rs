//! Errors, and how they are reported.

use vstd::prelude::*;
use vstd::string::*;

use crate::text::texts;

verus! {

/// What an operation of the operating system failed with.
#[derive(Debug, Clone, Copy, PartialEq, Eq, Structural)]
pub enum IoErrorKind {
    ConnectionRefused,
    InvalidInput,
    PermissionDenied,
    TimedOut,
    Other,
}

/// What went wrong.
#[derive(Debug, Clone, Copy, PartialEq, Eq, Structural)]
pub enum ErrorKind {
    Config,
    Connect(IoErrorKind),
    Tls,
    Closed,
    UnexpectedMessage,
    Other,
}

/// A failure, what it says of itself, and what the errors that caused it say,
/// the nearest first.
#[derive(Debug, PartialEq, Eq)]
pub struct Error {
    pub kind: ErrorKind,
    pub message: String,
    pub causes: Vec<String>,
}

/// What an [`Error`] stands for.
#[verifier::ext_equal]
pub struct ErrorView {
    pub kind: ErrorKind,
    pub message: Seq<char>,
    pub causes: Seq<Seq<char>>,
}

impl View for Error {
    type V = ErrorView;

    open spec fn view(&self) -> ErrorView {
        ErrorView { kind: self.kind, message: self.message@, causes: texts(self.causes@) }
    }
}

/// What the outcome of an operation stands for.
pub open spec fn outcome_view(outcome: Result<(), Error>) -> Result<(), ErrorView> {
    match outcome {
        Ok(()) => Ok(()),
        Err(e) => Err(e@),
    }
}

/// An error in the settings, for the reason given.
pub open spec fn config_error(reason: Seq<char>) -> ErrorView {
    ErrorView {
        kind: ErrorKind::Config,
        message: "invalid configuration"@,
        causes: seq![reason],
    }
}

/// A failure to connect, for the reason given.
pub open spec fn connect_error(kind: IoErrorKind, reason: Seq<char>) -> ErrorView {
    ErrorView {
        kind: ErrorKind::Connect(kind),
        message: "error connecting to server"@,
        causes: seq![reason],
    }
}

/// A failure of TLS, for the reason given.
pub open spec fn tls_error(reason: Seq<char>) -> ErrorView {
    ErrorView {
        kind: ErrorKind::Tls,
        message: "error performing TLS handshake"@,
        causes: seq![reason],
    }
}

/// A connection that ended while it was needed.
pub open spec fn closed_error() -> ErrorView {
    ErrorView { kind: ErrorKind::Closed, message: "connection closed"@, causes: Seq::empty() }
}

/// A message that the protocol does not allow where it came.
pub open spec fn unexpected_message_error() -> ErrorView {
    ErrorView {
        kind: ErrorKind::UnexpectedMessage,
        message: "unexpected message from server"@,
        causes: Seq::empty(),
    }
}

fn only(reason: String) -> (r: Vec<String>)
    ensures
        texts(r@) == seq![reason@],
{
    let mut r: Vec<String> = Vec::new();
    r.push(reason);
    assert(texts(r@) =~= seq![reason@]);
    r
}

fn nothing() -> (r: Vec<String>)
    ensures
        texts(r@) == Seq::<Seq<char>>::empty(),
{
    let r: Vec<String> = Vec::new();
    assert(texts(r@) =~= Seq::<Seq<char>>::empty());
    r
}

impl Error {
    /// An error in the settings, for the reason given.
    pub fn config(reason: String) -> (r: Error)
        ensures
            r@ == config_error(reason@),
    {
        Error {
            kind: ErrorKind::Config,
            message: "invalid configuration".to_owned(),
            causes: only(reason),
        }
    }

    /// A failure to connect, for the reason given.
    pub fn connect(kind: IoErrorKind, reason: String) -> (r: Error)
        ensures
            r@ == connect_error(kind, reason@),
    {
        Error {
            kind: ErrorKind::Connect(kind),
            message: "error connecting to server".to_owned(),
            causes: only(reason),
        }
    }

    /// A failure of TLS, for the reason given.
    pub fn tls(reason: String) -> (r: Error)
        ensures
            r@ == tls_error(reason@),
    {
        Error {
            kind: ErrorKind::Tls,
            message: "error performing TLS handshake".to_owned(),
            causes: only(reason),
        }
    }

    /// A connection that ended while it was needed.
    pub fn closed() -> (r: Error)
        ensures
            r@ == closed_error(),
    {
        Error {
            kind: ErrorKind::Closed,
            message: "connection closed".to_owned(),
            causes: nothing(),
        }
    }

    /// A message that the protocol does not allow where it came.
    pub fn unexpected_message() -> (r: Error)
        ensures
            r@ == unexpected_message_error(),
    {
        Error {
            kind: ErrorKind::UnexpectedMessage,
            message: "unexpected message from server".to_owned(),
            causes: nothing(),
        }
    }
}

/// `outer: inner: innermost`.
pub open spec fn chain_text(message: Seq<char>, causes: Seq<Seq<char>>) -> Seq<char>
    decreases causes.len(),
{
    if causes.len() == 0 {
        message
    } else {
        chain_text(message, causes.drop_last()) + ": "@ + causes.last()
    }
}

/// Renders an error and its causes as one `outer: inner: innermost` string, so
/// that a report shows what was really behind a failure (DNS, a refused TCP
/// connection, TLS, authentication) instead of its outermost layer alone.
pub fn error_chain(err: &Error) -> (r: String)
    ensures
        r@ == chain_text(err@.message, err@.causes),
{
    let mut message: String = err.message.clone();
    let mut i: usize = 0;
    while i < err.causes.len()
        invariant
            i <= err.causes.len(),
            message@ == chain_text(err@.message, err@.causes.take(i as int)),
        decreases err.causes.len() - i,
    {
        let ghost walked = err@.causes.take(i + 1);
        assert(walked.drop_last() =~= err@.causes.take(i as int));
        message.append(": ");
        message.append(err.causes[i].as_str());
        i += 1;
    }
    assert(err@.causes.take(err.causes@.len() as int) =~= err@.causes);
    message
}

} // verus!
