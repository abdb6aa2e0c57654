//! Text: comparison, splitting, and what goes into messages.

use vstd::prelude::*;
use vstd::string::*;

use crate::host::{views, Host, HostView};

verus! {

/// What each of a list of strings holds.
pub open spec fn texts(strings: Seq<String>) -> Seq<Seq<char>> {
    strings.map_values(|s: String| s@)
}

/// Whether `s` is the text `t`.
pub fn is_text(s: &String, t: &str) -> (r: bool)
    ensures
        r == (s@ == t@),
{
    *s == t.to_owned()
}

/// Copies a list of strings.
pub fn clone_texts(strings: &Vec<String>) -> (r: Vec<String>)
    ensures
        texts(r@) == texts(strings@),
{
    let mut r: Vec<String> = Vec::new();
    let mut i: usize = 0;
    while i < strings.len()
        invariant
            i <= strings.len(),
            texts(r@) == texts(strings@).take(i as int),
        decreases strings.len() - i,
    {
        let ghost before = r@;
        r.push(strings[i].clone());
        assert(texts(r@) =~= texts(before).push(strings@[i as int]@));
        assert(texts(strings@).take(i + 1) =~= texts(strings@).take(i as int).push(
            strings@[i as int]@,
        ));
        i += 1;
    }
    assert(texts(strings@).take(strings@.len() as int) =~= texts(strings@));
    r
}

/// An ASCII capital letter in lower case; every other character unchanged.
pub open spec fn ascii_lower(c: char) -> char {
    if 'A' <= c && c <= 'Z' {
        (c as u32 + 32) as char
    } else {
        c
    }
}

/// Whether two texts differ in the case of ASCII letters at most.
pub open spec fn same_ignoring_ascii_case(a: Seq<char>, b: Seq<char>) -> bool {
    a.map_values(|c: char| ascii_lower(c)) == b.map_values(|c: char| ascii_lower(c))
}

/// `str::eq_ignore_ascii_case`: true of two strings that are equal once the
/// letters `A` to `Z` in them are put in lower case, and of no others.
pub assume_specification[ str::eq_ignore_ascii_case ](s: &str, other: &str) -> (r: bool)
    ensures
        r == same_ignoring_ascii_case(s@, other@),
;

/// A string as `Debug` prints it: in double quotes, with escapes.
pub uninterp spec fn str_debug(s: Seq<char>) -> Seq<char>;

/// `Debug` of `str`, through `format!`: the result depends on nothing but the
/// string. Which characters are escaped, and how, is left unsaid.
#[verifier::external_body]
fn quote(s: &str) -> (r: String)
    ensures
        r@ == str_debug(s@),
{
    format!("{:?}", s)
}

/// A host as it is shown in messages.
pub open spec fn host_text(host: HostView) -> Seq<char> {
    match host {
        HostView::Tcp(name) => "Tcp("@ + str_debug(name) + ")"@,
        HostView::Unix { bytes, debug } => "Unix("@ + debug + ")"@,
    }
}

/// Writes a host as it is shown in messages.
pub fn show_host(host: &Host) -> (r: String)
    ensures
        r@ == host_text(host@),
{
    match host {
        Host::Tcp(name) => "Tcp(".to_owned().concat(quote(name.as_str()).as_str()).concat(")"),
        Host::Unix(path) => "Unix(".to_owned().concat(path.debug.as_str()).concat(")"),
    }
}

/// The hosts of a list, each but the first preceded by a comma and a space.
pub open spec fn hosts_separated(hosts: Seq<HostView>) -> Seq<char>
    decreases hosts.len(),
{
    if hosts.len() == 0 {
        Seq::empty()
    } else if hosts.len() == 1 {
        host_text(hosts[0])
    } else {
        hosts_separated(hosts.drop_last()) + ", "@ + host_text(hosts.last())
    }
}

/// A list of hosts as it is shown in messages.
pub open spec fn hosts_text(hosts: Seq<HostView>) -> Seq<char> {
    "["@ + hosts_separated(hosts) + "]"@
}

/// Writes a list of hosts as it is shown in messages.
pub fn show_hosts(hosts: &Vec<Host>) -> (r: String)
    ensures
        r@ == hosts_text(views(hosts@)),
{
    let mut inner: String = String::new();
    let mut i: usize = 0;
    while i < hosts.len()
        invariant
            i <= hosts.len(),
            inner@ == hosts_separated(views(hosts@).take(i as int)),
        decreases hosts.len() - i,
    {
        let ghost shown = views(hosts@).take(i + 1);
        assert(shown.drop_last() =~= views(hosts@).take(i as int));
        if i > 0 {
            inner.append(", ");
        }
        inner.append(show_host(&hosts[i]).as_str());
        assert(inner@ =~= hosts_separated(shown));
        i += 1;
    }
    assert(views(hosts@).take(hosts@.len() as int) =~= views(hosts@));
    "[".to_owned().concat(inner.as_str()).concat("]")
}

/// The decimal digits of a number.
pub open spec fn decimal(n: nat) -> Seq<char>
    decreases n,
{
    if n < 10 {
        seq![(48 + n) as char]
    } else {
        decimal(n / 10).push((48 + n % 10) as char)
    }
}

fn digit(n: usize) -> (r: &'static str)
    requires
        n < 10,
    ensures
        r@ == seq![(48 + n) as char],
{
    proof {
        reveal_strlit("0");
        reveal_strlit("1");
        reveal_strlit("2");
        reveal_strlit("3");
        reveal_strlit("4");
        reveal_strlit("5");
        reveal_strlit("6");
        reveal_strlit("7");
        reveal_strlit("8");
        reveal_strlit("9");
    }
    let r = match n {
        0 => "0",
        1 => "1",
        2 => "2",
        3 => "3",
        4 => "4",
        5 => "5",
        6 => "6",
        7 => "7",
        8 => "8",
        _ => "9",
    };
    assert(r@ =~= seq![(48 + n) as char]);
    r
}

/// Writes a number in decimal.
pub fn show_number(n: usize) -> (r: String)
    ensures
        r@ == decimal(n as nat),
    decreases n,
{
    if n < 10 {
        digit(n).to_owned()
    } else {
        let mut r: String = show_number(n / 10);
        r.append(digit(n % 10));
        assert(r@ =~= decimal(n as nat));
        r
    }
}

/// The parts of a text between its dots: a dot starts a new part, any other
/// character continues the last one.
pub open spec fn split_dots(s: Seq<char>) -> Seq<Seq<char>>
    decreases s.len(),
{
    if s.len() == 0 {
        seq![Seq::<char>::empty()]
    } else {
        let parts = split_dots(s.drop_last());
        if s.last() == '.' {
            parts.push(Seq::<char>::empty())
        } else {
            parts.drop_last().push(parts.last().push(s.last()))
        }
    }
}

/// Splits a text at its dots.
pub fn split_at_dots(s: &str) -> (r: Vec<String>)
    ensures
        texts(r@) == split_dots(s@),
{
    let n: usize = s.unicode_len();
    let mut parts: Vec<String> = Vec::new();
    let mut start: usize = 0;
    let mut i: usize = 0;
    assert(s@.take(0) =~= Seq::<char>::empty());
    assert(s@.subrange(0, 0) =~= Seq::<char>::empty());
    assert(texts(parts@).push(s@.subrange(0, 0)) =~= split_dots(s@.take(0)));
    while i < n
        invariant
            start <= i <= n,
            n == s@.len(),
            texts(parts@).push(s@.subrange(start as int, i as int)) == split_dots(s@.take(i as int)),
        decreases n - i,
    {
        let ghost before = texts(parts@);
        let ghost current = s@.subrange(start as int, i as int);
        assert(s@.take(i + 1).drop_last() =~= s@.take(i as int));
        assert(before.push(current).drop_last() =~= before);
        if s.get_char(i) == '.' {
            parts.push(s.substring_char(start, i).to_owned());
            start = i + 1;
            assert(texts(parts@) =~= before.push(current));
            assert(s@.subrange(start as int, i + 1) =~= Seq::<char>::empty());
        } else {
            assert(s@.subrange(start as int, i + 1) =~= current.push(s@[i as int]));
        }
        i += 1;
    }
    let ghost before = texts(parts@);
    parts.push(s.substring_char(start, n).to_owned());
    assert(texts(parts@) =~= before.push(s@.subrange(start as int, n as int)));
    assert(s@.take(n as int) =~= s@);
    parts
}

} // verus!
