//! What holds of texts, and of what is said in messages.

use vstd::prelude::*;

use crate::error::{
    chain_text, closed_error, config_error, connect_error, tls_error, unexpected_message_error,
    ErrorKind, IoErrorKind,
};
use crate::host::HostView;
use crate::laws::placement::{dotless, lemma_one_part};
use crate::text::{
    ascii_lower, decimal, host_text, hosts_separated, hosts_text, same_ignoring_ascii_case,
    split_dots, str_debug,
};

verus! {

/// Texts with a dot between each two.
pub open spec fn joined(parts: Seq<Seq<char>>) -> Seq<char>
    decreases parts.len(),
{
    if parts.len() == 0 {
        Seq::empty()
    } else if parts.len() == 1 {
        parts[0]
    } else {
        joined(parts.drop_last()) + seq!['.'] + parts.last()
    }
}

/// The parts of a text are the parts before one of its dots and those after it.
pub proof fn lemma_split_at(s: Seq<char>, t: Seq<char>)
    ensures
        split_dots(s + seq!['.'] + t) == split_dots(s) + split_dots(t),
        split_dots(t).len() > 0,
    decreases t.len(),
{
    let all = s + seq!['.'] + t;
    if t.len() > 0 {
        let rest = t.drop_last();
        let before = s + seq!['.'] + rest;
        lemma_split_at(s, rest);
        assert(all.drop_last() =~= before);
        assert(all.last() == t.last());
        let ps = split_dots(s);
        let pr = split_dots(rest);
        assert((ps + pr).drop_last() =~= ps + pr.drop_last());
        assert((ps + pr).last() == pr.last());
        if t.last() == '.' {
            assert((ps + pr).push(Seq::<char>::empty()) =~= ps + pr.push(Seq::<char>::empty()));
        } else {
            let longer = pr.last().push(t.last());
            assert((ps + pr.drop_last()).push(longer) =~= ps + pr.drop_last().push(longer));
        }
    } else {
        assert(all.drop_last() =~= s);
        assert(all.last() == '.');
        assert(split_dots(s).push(Seq::<char>::empty()) =~= split_dots(s) + seq![
            Seq::<char>::empty(),
        ]);
    }
}

/// Splitting at dots undoes joining with dots, whatever texts without a dot are
/// joined.
pub proof fn splitting_undoes_joining(parts: Seq<Seq<char>>)
    requires
        parts.len() > 0,
        forall|i: int| 0 <= i < parts.len() ==> dotless(#[trigger] parts[i]),
    ensures
        split_dots(joined(parts)) == parts,
    decreases parts.len(),
{
    if parts.len() == 1 {
        assert(dotless(parts[0]));
        lemma_one_part(parts[0]);
        assert(parts =~= seq![parts[0]]);
    } else {
        let rest = parts.drop_last();
        assert forall|i: int| 0 <= i < rest.len() implies dotless(#[trigger] rest[i]) by {
            assert(rest[i] == parts[i]);
        }
        assert(dotless(parts[parts.len() - 1]));
        splitting_undoes_joining(rest);
        lemma_split_at(joined(rest), parts.last());
        lemma_one_part(parts.last());
        assert(rest + seq![parts.last()] =~= parts);
    }
}

/// Joining with dots undoes splitting at dots, and no part has a dot in it.
pub proof fn joining_undoes_splitting(s: Seq<char>)
    ensures
        joined(split_dots(s)) == s,
        split_dots(s).len() > 0,
        forall|i: int| 0 <= i < split_dots(s).len() ==> dotless(#[trigger] split_dots(s)[i]),
    decreases s.len(),
{
    if s.len() > 0 {
        let rest = s.drop_last();
        joining_undoes_splitting(rest);
        let before = split_dots(rest);
        let parts = split_dots(s);
        assert(rest.push(s.last()) =~= s);
        if s.last() == '.' {
            assert(parts.drop_last() =~= before);
            assert(joined(parts) =~= rest + seq!['.'] + Seq::<char>::empty());
            assert(joined(parts) =~= s);
            assert forall|i: int| 0 <= i < parts.len() implies dotless(#[trigger] parts[i]) by {
                if i < before.len() {
                    assert(parts[i] == before[i]);
                }
            }
        } else {
            let last = before.last();
            let longer = last.push(s.last());
            assert(dotless(before[before.len() - 1]));
            assert(parts.drop_last() =~= before.drop_last());
            assert(parts.last() == longer);
            if before.len() == 1 {
                assert(before[0] == last);
                assert(joined(parts) =~= s);
            } else {
                assert(joined(parts) =~= joined(before).push(s.last()));
                assert(joined(parts) =~= s);
            }
            assert forall|i: int| 0 <= i < parts.len() implies dotless(#[trigger] parts[i]) by {
                if i < before.len() - 1 {
                    assert(parts[i] == before[i]);
                }
            }
        }
    } else {
        assert(joined(split_dots(s)) =~= s);
    }
}

/// The number that a row of decimal digits stands for.
pub open spec fn value(digits: Seq<char>) -> int
    decreases digits.len(),
{
    if digits.len() == 0 {
        0
    } else {
        10 * value(digits.drop_last()) + (digits.last() as int - '0' as int)
    }
}

/// A number is shown in decimal digits that stand for it, without a needless zero
/// in front.
pub proof fn a_number_is_shown_in_decimal(n: nat)
    ensures
        value(decimal(n)) == n,
        decimal(n).len() > 0,
        forall|i: int| 0 <= i < decimal(n).len() ==> '0' <= #[trigger] decimal(n)[i] <= '9',
        n > 0 ==> decimal(n)[0] != '0',
        n == 0 ==> decimal(n).len() == 1,
    decreases n,
{
    if n >= 10 {
        a_number_is_shown_in_decimal(n / 10);
        assert(decimal(n).drop_last() =~= decimal(n / 10));
    } else {
        assert(decimal(n).drop_last() =~= Seq::<char>::empty());
        assert(value(decimal(n).drop_last()) == 0);
    }
}

/// Two texts are the same but for the case of ASCII letters if they are as long,
/// and hold the same character at each place, or the two cases of one letter.
pub proof fn only_the_case_of_ascii_letters_is_ignored(a: Seq<char>, b: Seq<char>)
    ensures
        same_ignoring_ascii_case(a, b) <==> {
            &&& a.len() == b.len()
            &&& forall|i: int|
                0 <= i < a.len() ==> {
                    ||| #[trigger] a[i] == b[i]
                    ||| 'A' <= a[i] <= 'Z' && b[i] as int == a[i] as int + 32
                    ||| 'A' <= b[i] <= 'Z' && a[i] as int == b[i] as int + 32
                }
        },
{
    let la = a.map_values(|c: char| ascii_lower(c));
    let lb = b.map_values(|c: char| ascii_lower(c));
    if same_ignoring_ascii_case(a, b) {
        assert(la.len() == lb.len());
        assert forall|i: int| 0 <= i < a.len() implies {
            ||| #[trigger] a[i] == b[i]
            ||| 'A' <= a[i] <= 'Z' && b[i] as int == a[i] as int + 32
            ||| 'A' <= b[i] <= 'Z' && a[i] as int == b[i] as int + 32
        } by {
            assert(la[i] == lb[i]);
        }
    }
    if a.len() == b.len() && forall|i: int|
        0 <= i < a.len() ==> {
            ||| #[trigger] a[i] == b[i]
            ||| 'A' <= a[i] <= 'Z' && b[i] as int == a[i] as int + 32
            ||| 'A' <= b[i] <= 'Z' && a[i] as int == b[i] as int + 32
        } {
        assert forall|i: int| 0 <= i < a.len() implies la[i] == lb[i] by {
            assert(a[i] == a[i]);
        }
        assert(la =~= lb);
    }
}

/// A host is shown by its kind, with its quoted name or path in brackets.
pub proof fn a_host_is_shown_by_its_kind(name: Seq<char>, bytes: Seq<u8>, debug: Seq<char>)
    ensures
        host_text(HostView::Tcp(name)) == "Tcp("@ + str_debug(name) + ")"@,
        host_text(HostView::Unix { bytes, debug }) == "Unix("@ + debug + ")"@,
{
}

/// A list of hosts is shown in square brackets: two lists that follow each other
/// with a comma and a space between them, and a host alone as itself.
pub proof fn a_list_of_hosts_is_shown_in_brackets(
    a: Seq<HostView>,
    b: Seq<HostView>,
    host: HostView,
)
    requires
        a.len() > 0,
        b.len() > 0,
    ensures
        hosts_text(a) == "["@ + hosts_separated(a) + "]"@,
        hosts_text(Seq::empty()) == "["@ + "]"@,
        hosts_separated(seq![host]) == host_text(host),
        hosts_separated(a + b) == hosts_separated(a) + ", "@ + hosts_separated(b),
    decreases b.len(),
{
    assert("["@ + Seq::<char>::empty() =~= "["@);
    let all = a + b;
    let rest = b.drop_last();
    assert(all.drop_last() =~= a + rest);
    assert(all.last() == b.last());
    if b.len() > 1 {
        a_list_of_hosts_is_shown_in_brackets(a, rest, host);
        assert(hosts_separated(all) =~= hosts_separated(a) + ", "@ + hosts_separated(b));
    } else {
        assert(a + rest =~= a);
        assert(b[0] == b.last());
    }
}

/// A chain of errors shows each cause after what it caused, with a colon and a
/// space between them: alone as it is, and further causes after those before.
pub proof fn a_chain_shows_every_cause_in_turn(
    message: Seq<char>,
    a: Seq<Seq<char>>,
    b: Seq<Seq<char>>,
    cause: Seq<char>,
)
    ensures
        chain_text(message, Seq::empty()) == message,
        chain_text(message, seq![cause]) == message + ": "@ + cause,
        chain_text(message, a + b) == chain_text(chain_text(message, a), b),
    decreases b.len(),
{
    assert(seq![cause].drop_last() =~= Seq::<Seq<char>>::empty());
    assert(chain_text(message, seq![cause].drop_last()) == message);
    if b.len() > 0 {
        a_chain_shows_every_cause_in_turn(message, a, b.drop_last(), cause);
        assert((a + b).drop_last() =~= a + b.drop_last());
        assert((a + b).last() == b.last());
    } else {
        assert(a + b =~= a);
    }
}

/// An error says of which kind it is, and gives the reason that it was made with as
/// its only cause.
pub proof fn errors_give_their_reason(kind: IoErrorKind, reason: Seq<char>)
    ensures
        config_error(reason).kind == ErrorKind::Config,
        config_error(reason).message == "invalid configuration"@,
        config_error(reason).causes == seq![reason],
        connect_error(kind, reason).kind == ErrorKind::Connect(kind),
        connect_error(kind, reason).message == "error connecting to server"@,
        connect_error(kind, reason).causes == seq![reason],
        tls_error(reason).kind == ErrorKind::Tls,
        tls_error(reason).message == "error performing TLS handshake"@,
        tls_error(reason).causes == seq![reason],
        closed_error().kind == ErrorKind::Closed,
        closed_error().message == "connection closed"@,
        closed_error().causes.len() == 0,
        unexpected_message_error().kind == ErrorKind::UnexpectedMessage,
        unexpected_message_error().message == "unexpected message from server"@,
        unexpected_message_error().causes.len() == 0,
{
}

} // verus!
