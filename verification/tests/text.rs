//! Text and errors.

use yb_load_balance::error::{error_chain, Error, ErrorKind, IoErrorKind};
use yb_load_balance::host::{Host, UnixPath};
use yb_load_balance::text::{
    clone_texts, is_text, show_host, show_hosts, show_number, split_at_dots,
};

#[test]
fn texts_are_compared_and_copied() {
    assert!(is_text(&"only-rr".to_string(), "only-rr"));
    assert!(!is_text(&"only-rr".to_string(), "only-r"));
    assert!(is_text(&String::new(), ""));
    let all = vec!["a".to_string(), String::new()];
    assert_eq!(clone_texts(&all), all);
}

#[test]
fn hosts_are_shown_quoted() {
    assert_eq!(show_host(&Host::Tcp("a.b".to_string())), "Tcp(\"a.b\")");
    assert_eq!(show_host(&Host::Tcp("q\"\\\n".to_string())), "Tcp(\"q\\\"\\\\\\n\")");
    let path = UnixPath { bytes: b"/tmp".to_vec(), debug: "\"/tmp\"".to_string() };
    assert_eq!(show_host(&Host::Unix(path)), "Unix(\"/tmp\")");
}

#[test]
fn lists_of_hosts_are_shown_in_brackets() {
    assert_eq!(show_hosts(&vec![]), "[]");
    assert_eq!(show_hosts(&vec![Host::Tcp("a".to_string())]), "[Tcp(\"a\")]");
    assert_eq!(
        show_hosts(&vec![
            Host::Tcp("a".to_string()),
            Host::Tcp("b".to_string()),
            Host::Tcp("c".to_string())
        ]),
        "[Tcp(\"a\"), Tcp(\"b\"), Tcp(\"c\")]"
    );
}

#[test]
fn numbers_are_shown_in_decimal() {
    for n in [0, 7, 9, 10, 12, 99, 100, 909, 123456789, usize::MAX] {
        assert_eq!(show_number(n), format!("{}", n));
    }
}

#[test]
fn texts_are_split_at_dots() {
    for text in ["", ".", "a", "a.b", "a.b.c", "..", ".a.", "a..b", "c1.r\u{e9}gion.*"] {
        let parts: Vec<String> = text.split('.').map(|p| p.to_string()).collect();
        assert_eq!(split_at_dots(text), parts);
    }
}

#[test]
fn a_chain_of_errors_shows_every_cause() {
    assert_eq!(error_chain(&Error::closed()), "connection closed");
    assert_eq!(
        error_chain(&Error::connect(IoErrorKind::TimedOut, "too slow".to_string())),
        "error connecting to server: too slow"
    );
    let deep = Error {
        kind: ErrorKind::Other,
        message: "outer".to_string(),
        causes: vec!["inner".to_string(), "innermost".to_string()],
    };
    assert_eq!(error_chain(&deep), "outer: inner: innermost");
}

#[test]
fn errors_say_what_went_wrong() {
    assert_eq!(Error::config("x".to_string()).kind, ErrorKind::Config);
    assert_eq!(
        error_chain(&Error::config("x".to_string())),
        "invalid configuration: x"
    );
    assert_eq!(Error::tls("x".to_string()).kind, ErrorKind::Tls);
    assert_eq!(
        error_chain(&Error::tls("x".to_string())),
        "error performing TLS handshake: x"
    );
    assert_eq!(Error::closed().kind, ErrorKind::Closed);
    assert_eq!(Error::unexpected_message().kind, ErrorKind::UnexpectedMessage);
    assert_eq!(
        error_chain(&Error::unexpected_message()),
        "unexpected message from server"
    );
}
