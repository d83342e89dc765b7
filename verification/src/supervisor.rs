//! Recognising the `dsh web` host's startup URL and deciding, line by line,
//! when its startup has succeeded or failed.
//!
//! The test is "is it a loopback URL", not "does it carry a token": upstream
//! versions differ on the token, while the harness only ever binds the
//! loopback interface, so no other URL in its output can be its own UI.
use vstd::prelude::*;

use crate::install::{Arg, ArgView};
use crate::paths::FsPath;
use crate::text::{
    chars_of, decimal, decimal_chars, find_chars, find_from, is_whitespace, is_ws,
    lemma_find_from_found, occurs_at, same_chars, slice_chars, string_of,
};

verus! {

// ---------------------------------------------------------------------------
// The model
// ---------------------------------------------------------------------------

pub open spec fn http_scheme() -> Seq<char> {
    seq!['h', 't', 't', 'p', ':', '/', '/']
}

pub open spec fn https_scheme() -> Seq<char> {
    seq!['h', 't', 't', 'p', 's', ':', '/', '/']
}

pub open spec fn scheme_separator() -> Seq<char> {
    seq![':', '/', '/']
}

pub open spec fn loopback_ipv4() -> Seq<char> {
    seq!['1', '2', '7', '.', '0', '.', '0', '.', '1']
}

pub open spec fn loopback_name() -> Seq<char> {
    seq!['l', 'o', 'c', 'a', 'l', 'h', 'o', 's', 't']
}

pub open spec fn loopback_ipv6() -> Seq<char> {
    seq!['[', ':', ':', '1', ']']
}

/// The first position at or after `k` holding whitespace, or the length.
pub open spec fn whitespace_from(s: Seq<char>, k: int) -> int
    decreases s.len() - k,
{
    if k < 0 || k >= s.len() {
        s.len() as int
    } else if is_ws(s[k]) {
        k
    } else {
        whitespace_from(s, k + 1)
    }
}

pub open spec fn ends_authority(c: char) -> bool {
    c == '/' || c == '?' || c == '#'
}

/// The first position at or after `k` holding `/`, `?` or `#`, or the length.
pub open spec fn authority_end(s: Seq<char>, k: int) -> int
    decreases s.len() - k,
{
    if k < 0 || k >= s.len() {
        s.len() as int
    } else if ends_authority(s[k]) {
        k
    } else {
        authority_end(s, k + 1)
    }
}

/// The last position holding `c`.
pub open spec fn last_index(s: Seq<char>, c: char) -> Option<int>
    decreases s.len(),
{
    if s.len() == 0 {
        None
    } else if s.last() == c {
        Some(s.len() - 1)
    } else {
        last_index(s.drop_last(), c)
    }
}

pub open spec fn ascii_digits(s: Seq<char>) -> bool {
    forall|i: int| 0 <= i < s.len() ==> '0' <= #[trigger] s[i] <= '9'
}

/// The authority of a URL: what follows the first `://`, up to the first
/// `/`, `?` or `#`. `None` when there is no `://`.
pub open spec fn authority_of(url: Seq<char>) -> Option<Seq<char>> {
    match find_from(url, scheme_separator(), 0) {
        None => None,
        Some(i) => {
            let rest = url.skip(i + 3);
            Some(rest.take(authority_end(rest, 0)))
        },
    }
}

/// The host of an authority: a trailing `:port` of digits comes off, so the
/// brackets of an IPv6 literal stay.
pub open spec fn host_of(authority: Seq<char>) -> Seq<char> {
    match last_index(authority, ':') {
        Some(j) => if ascii_digits(authority.skip(j + 1)) {
            authority.take(j)
        } else {
            authority
        },
        None => authority,
    }
}

/// Does this URL address the local machine?
pub open spec fn loopback(url: Seq<char>) -> bool {
    match authority_of(url) {
        None => false,
        Some(a) => {
            let h = host_of(a);
            h == loopback_ipv4() || h == loopback_name() || h == loopback_ipv6()
        },
    }
}

/// Where the URL in a log line starts: the first `http://`, or failing that
/// the first `https://`.
pub open spec fn url_start(line: Seq<char>) -> Option<int> {
    match find_from(line, http_scheme(), 0) {
        Some(i) => Some(i),
        None => find_from(line, https_scheme(), 0),
    }
}

/// The startup URL a host log line carries: the URL that starts there and
/// runs to the next whitespace, if it is a loopback URL.
pub open spec fn startup_url(line: Seq<char>) -> Option<Seq<char>> {
    match url_start(line) {
        None => None,
        Some(s) => {
            let url = line.subrange(s, whitespace_from(line, s));
            if loopback(url) {
                Some(url)
            } else {
                None
            }
        },
    }
}

// ---------------------------------------------------------------------------
// The implementation
// ---------------------------------------------------------------------------

proof fn lemma_whitespace_from(s: Seq<char>, k: int)
    requires
        0 <= k <= s.len(),
    ensures
        k <= whitespace_from(s, k) <= s.len(),
        forall|i: int| k <= i < whitespace_from(s, k) ==> !is_ws(#[trigger] s[i]),
    decreases s.len() - k,
{
    if k < s.len() && !is_ws(s[k]) {
        lemma_whitespace_from(s, k + 1);
    }
}

proof fn lemma_authority_end(s: Seq<char>, k: int)
    requires
        0 <= k <= s.len(),
    ensures
        k <= authority_end(s, k) <= s.len(),
    decreases s.len() - k,
{
    if k < s.len() && !ends_authority(s[k]) {
        lemma_authority_end(s, k + 1);
    }
}

proof fn lemma_last_index(s: Seq<char>, c: char)
    ensures
        last_index(s, c) matches Some(j) ==> 0 <= j < s.len() && s[j] == c,
    decreases s.len(),
{
    if s.len() > 0 && s.last() != c {
        lemma_last_index(s.drop_last(), c);
    }
}

fn last_index_of(v: &[char], c: char) -> (r: Option<usize>)
    ensures
        r matches Some(j) ==> last_index(v@, c) == Some(j as int),
        r is None ==> last_index(v@, c) is None,
{
    let mut i = v.len();
    assert(v@.take(i as int) =~= v@);
    while i > 0
        invariant
            i <= v@.len(),
            last_index(v@, c) == last_index(v@.take(i as int), c),
        decreases i,
    {
        assert(v@.take(i as int).drop_last() =~= v@.take(i - 1));
        if v[i - 1] == c {
            return Some(i - 1);
        }
        i -= 1;
    }
    None
}

fn all_ascii_digits(v: &[char]) -> (r: bool)
    ensures
        r == ascii_digits(v@),
{
    let mut i: usize = 0;
    while i < v.len()
        invariant
            i <= v@.len(),
            forall|j: int| 0 <= j < i ==> '0' <= #[trigger] v@[j] <= '9',
        decreases v@.len() - i,
    {
        if !('0' <= v[i] && v[i] <= '9') {
            return false;
        }
        i += 1;
    }
    true
}

/// Does this URL address the local machine?
pub fn is_loopback(url: &str) -> (r: bool)
    ensures
        r == loopback(url@),
{
    let u = chars_of(url);
    let sep: Vec<char> = vec![':', '/', '/'];
    assert(sep@ =~= scheme_separator());
    let after = match find_chars(&u, &sep, 0) {
        None => {
            return false;
        },
        Some(i) => i,
    };
    proof {
        lemma_find_from_found(u@, sep@, 0);
    }
    assert(find_from(u@, sep@, 0) == Some(after as int));
    let ulen = u.len();
    assert(after + 3 <= ulen);
    let rest = slice_chars(&u, after + 3, ulen);
    let mut end: usize = 0;
    while end < rest.len() && !(rest[end] == '/' || rest[end] == '?' || rest[end] == '#')
        invariant
            end <= rest@.len(),
            authority_end(rest@, 0) == authority_end(rest@, end as int),
        decreases rest@.len() - end,
    {
        end += 1;
    }
    let authority = slice_chars(&rest, 0, end);
    assert(authority@ =~= rest@.take(end as int));
    proof {
        lemma_last_index(authority@, ':');
    }
    let host = match last_index_of(&authority, ':') {
        Some(j) => {
            let port = slice_chars(&authority, j + 1, authority.len());
            if all_ascii_digits(&port) {
                assert(port@ =~= authority@.skip(j + 1));
                slice_chars(&authority, 0, j)
            } else {
                assert(port@ =~= authority@.skip(j + 1));
                authority
            }
        },
        None => authority,
    };
    let v4: Vec<char> = vec!['1', '2', '7', '.', '0', '.', '0', '.', '1'];
    let name: Vec<char> = vec!['l', 'o', 'c', 'a', 'l', 'h', 'o', 's', 't'];
    let v6: Vec<char> = vec!['[', ':', ':', '1', ']'];
    assert(v4@ =~= loopback_ipv4());
    assert(name@ =~= loopback_name());
    assert(v6@ =~= loopback_ipv6());
    assert(host@ == host_of(authority_of(u@)->0));
    same_chars(&host, &v4) || same_chars(&host, &name) || same_chars(&host, &v6)
}

/// Pull the startup URL out of a host log line.
pub fn extract_url(line: &str) -> (r: Option<String>)
    ensures
        r matches Some(u) ==> startup_url(line@) == Some(u@),
        r is None ==> startup_url(line@) is None,
{
    let l = chars_of(line);
    let http: Vec<char> = vec!['h', 't', 't', 'p', ':', '/', '/'];
    let https: Vec<char> = vec!['h', 't', 't', 'p', 's', ':', '/', '/'];
    assert(http@ =~= http_scheme());
    assert(https@ =~= https_scheme());
    let start = match find_chars(&l, &http, 0) {
        Some(i) => i,
        None => match find_chars(&l, &https, 0) {
            Some(i) => i,
            None => {
                return None;
            },
        },
    };
    proof {
        lemma_find_from_found(l@, http@, 0);
        lemma_find_from_found(l@, https@, 0);
    }
    assert(url_start(l@) == Some(start as int));
    let mut end = start;
    while end < l.len() && !is_whitespace(l[end])
        invariant
            start <= end <= l@.len(),
            whitespace_from(l@, start as int) == whitespace_from(l@, end as int),
        decreases l@.len() - end,
    {
        end += 1;
    }
    let url = string_of(&slice_chars(&l, start, end));
    if is_loopback(url.as_str()) {
        Some(url)
    } else {
        None
    }
}


/// `s` begins with `prefix`.
pub open spec fn starts_with(s: Seq<char>, prefix: Seq<char>) -> bool {
    prefix.len() <= s.len() && s.take(prefix.len() as int) == prefix
}

/// What is taken for the host's UI is always a loopback URL: it begins with
/// `http://` or `https://`, holds no whitespace, and is part of the line.
pub proof fn law_startup_url_is_local(line: Seq<char>)
    ensures
        startup_url(line) matches Some(u) ==> {
            &&& loopback(u)
            &&& starts_with(u, http_scheme()) || starts_with(u, https_scheme())
            &&& forall|i: int| 0 <= i < u.len() ==> !is_ws(#[trigger] u[i])
            &&& exists|s: int| #[trigger] occurs_at(line, u, s)
        },
{
    lemma_find_from_found(line, http_scheme(), 0);
    lemma_find_from_found(line, https_scheme(), 0);
    if let Some(s) = url_start(line) {
        let pre = if find_from(line, http_scheme(), 0) is Some {
            http_scheme()
        } else {
            https_scheme()
        };
        assert(occurs_at(line, pre, s));
        lemma_whitespace_from(line, s);
        lemma_ws_stop(line, s);
        let e = whitespace_from(line, s);
        assert forall|i: int| s <= i < s + pre.len() implies !is_ws(#[trigger] line[i]) by {
            assert(line[i] == line.subrange(s, s + pre.len())[i - s]);
            assert(line.subrange(s, s + pre.len())[i - s] == pre[i - s]);
        }
        assert(e >= s + pre.len()) by {
            if e < s + pre.len() {
                assert(is_ws(line[e]));
                assert(!is_ws(line[e]));
            }
        }
        let u = line.subrange(s, e);
        assert forall|i: int| 0 <= i < u.len() implies !is_ws(#[trigger] u[i]) by {
            assert(u[i] == line[s + i]);
        }
        assert(u.take(pre.len() as int) =~= pre);
        assert(line.subrange(s, s + u.len()) =~= u);
        assert(occurs_at(line, u, s));
    }
}

proof fn lemma_ws_stop(s: Seq<char>, k: int)
    requires
        0 <= k <= s.len(),
    ensures
        whitespace_from(s, k) < s.len() ==> is_ws(s[whitespace_from(s, k)]),
    decreases s.len() - k,
{
    if k < s.len() && !is_ws(s[k]) {
        lemma_ws_stop(s, k + 1);
    }
}

proof fn lemma_authority_end_at(s: Seq<char>, k: int, e: int)
    requires
        0 <= k <= e < s.len(),
        forall|j: int| k <= j < e ==> !ends_authority(#[trigger] s[j]),
        ends_authority(s[e]),
    ensures
        authority_end(s, k) == e,
    decreases e - k,
{
    if k < e {
        lemma_authority_end_at(s, k + 1, e);
    }
}

proof fn lemma_last_index_at(s: Seq<char>, c: char, j: int)
    requires
        0 <= j < s.len(),
        s[j] == c,
        forall|k: int| j < k < s.len() ==> #[trigger] s[k] != c,
    ensures
        last_index(s, c) == Some(j),
    decreases s.len() - j,
{
    if j < s.len() - 1 {
        let t = s.drop_last();
        assert forall|k: int| j < k < t.len() implies #[trigger] t[k] != c by {
            assert(t[k] == s[k]);
        }
        lemma_last_index_at(t, c, j);
    }
}

proof fn lemma_no_whitespace(s: Seq<char>, k: int)
    requires
        0 <= k <= s.len(),
        forall|i: int| k <= i < s.len() ==> !is_ws(#[trigger] s[i]),
    ensures
        whitespace_from(s, k) == s.len(),
    decreases s.len() - k,
{
    if k < s.len() {
        lemma_no_whitespace(s, k + 1);
    }
}

proof fn lemma_scheme_separator_at(u: Seq<char>)
    requires
        u.len() >= 7,
        u.take(7) == seq!['h', 't', 't', 'p', ':', '/', '/'],
    ensures
        find_from(u, scheme_separator(), 0) == Some(4int),
        find_from(u, http_scheme(), 0) == Some(0int),
{
    let sep = scheme_separator();
    assert forall|i: int| 0 <= i < 7 implies u[i] == u.take(7)[i] by {}
    assert(u.subrange(4, 7) =~= sep);
    assert(occurs_at(u, sep, 4));
    lemma_find_from_found(u, sep, 0);
    assert forall|j: int| 0 <= j < 4 implies !occurs_at(u, sep, j) by {
        assert(u[j] != ':');
        if occurs_at(u, sep, j) {
            assert(u.subrange(j, j + 3)[0] == u[j]);
        }
    }
    assert(u.subrange(0, 7) =~= http_scheme());
}

proof fn lemma_loopback_parts(h: Seq<char>, p: Seq<char>, c: char, q: Seq<char>)
    requires
        h == seq!['1', '2', '7', '.', '0', '.', '0', '.', '1'] || h == seq![
            'l',
            'o',
            'c',
            'a',
            'l',
            'h',
            'o',
            's',
            't',
        ] || h == seq!['[', ':', ':', '1', ']'],
        forall|i: int| 0 <= i < p.len() ==> '0' <= #[trigger] p[i] <= '9',
        c == '/' || c == '?' || c == '#',
    ensures
        loopback(seq!['h', 't', 't', 'p', ':', '/', '/'] + h + seq![':'] + p + seq![c] + q),
{
    let sch = seq!['h', 't', 't', 'p', ':', '/', '/'];
    let u = sch + h + seq![':'] + p + seq![c] + q;
    let hl = h.len() as int;
    let pl = p.len() as int;
    assert(u.take(7) =~= sch);
    lemma_scheme_separator_at(u);
    let rest = u.skip(7);
    assert(rest =~= h + seq![':'] + p + seq![c] + q);
    let e = hl + 1 + pl;
    assert forall|j: int| 0 <= j < e implies !ends_authority(#[trigger] rest[j]) by {
        if j < hl {
            assert(rest[j] == h[j]);
        } else if j > hl {
            assert(rest[j] == p[j - hl - 1]);
        }
    }
    assert(rest[e] == c);
    lemma_authority_end_at(rest, 0, e);
    let a = rest.take(e);
    assert(a =~= h + seq![':'] + p);
    assert(authority_of(u) == Some(a));
    assert forall|k: int| hl < k < a.len() implies #[trigger] a[k] != ':' by {
        assert(a[k] == p[k - hl - 1]);
    }
    lemma_last_index_at(a, ':', hl);
    assert(a.skip(hl + 1) =~= p);
    assert(a.take(hl) =~= h);
    assert(host_of(a) == h);
}

/// A URL `http://<host>:<port>` on a loopback host (`127.0.0.1`,
/// `localhost` or `[::1]`) with a port of digits, followed by a path, a
/// query or a fragment (`/`, `?` or `#`, then anything), is a loopback URL:
/// its authority ends at the first `/`, `?` or `#`. When it holds no
/// whitespace, a host line that consists of it yields it as the startup
/// URL.
pub proof fn law_loopback_urls(h: Seq<char>, p: Seq<char>, c: char, q: Seq<char>)
    requires
        h == seq!['1', '2', '7', '.', '0', '.', '0', '.', '1'] || h == seq![
            'l',
            'o',
            'c',
            'a',
            'l',
            'h',
            'o',
            's',
            't',
        ] || h == seq!['[', ':', ':', '1', ']'],
        forall|i: int| 0 <= i < p.len() ==> '0' <= #[trigger] p[i] <= '9',
        c == '/' || c == '?' || c == '#',
    ensures
        ({
            let u = seq!['h', 't', 't', 'p', ':', '/', '/'] + h + seq![':'] + p + seq![c] + q;
            &&& loopback(u)
            &&& (forall|i: int| 0 <= i < q.len() ==> !is_ws(#[trigger] q[i])) ==> startup_url(u)
                == Some(u)
        }),
{
    let sch = seq!['h', 't', 't', 'p', ':', '/', '/'];
    let u = sch + h + seq![':'] + p + seq![c] + q;
    let hl = h.len() as int;
    let pl = p.len() as int;
    lemma_loopback_parts(h, p, c, q);
    if forall|i: int| 0 <= i < q.len() ==> !is_ws(#[trigger] q[i]) {
        assert(u.take(7) =~= sch);
        lemma_scheme_separator_at(u);
        assert forall|i: int| 0 <= i < u.len() implies !is_ws(#[trigger] u[i]) by {
            if i < 7 {
                assert(u[i] == sch[i]);
            } else if i < 7 + hl {
                assert(u[i] == h[i - 7]);
            } else if i == 7 + hl {
            } else if i < 8 + hl + pl {
                assert(u[i] == p[i - 8 - hl]);
            } else if i == 8 + hl + pl {
            } else {
                assert(u[i] == q[i - 9 - hl - pl]);
            }
        }
        lemma_no_whitespace(u, 0);
        assert(u.subrange(0, u.len() as int) =~= u);
    }
}

// ---------------------------------------------------------------------------
// Starting the host
// ---------------------------------------------------------------------------

/// The arguments to give node to start the host: `<bin> web --no-open --port 0`.
/// Port 0 lets the OS pick a free port, so two installations, or a leftover
/// process, cannot collide on a fixed one.
pub fn host_arguments(bin: &FsPath) -> (r: Vec<Arg>)
    ensures
        r@.map_values(|a: Arg| a@) == seq![
            ArgView::Path(bin@),
            ArgView::Text("web"@),
            ArgView::Text("--no-open"@),
            ArgView::Text("--port"@),
            ArgView::Text("0"@),
        ],
{
    let mut r: Vec<Arg> = Vec::new();
    r.push(Arg::Path(bin.duplicate()));
    r.push(Arg::Text(String::from_str("web")));
    r.push(Arg::Text(String::from_str("--no-open")));
    r.push(Arg::Text(String::from_str("--port")));
    r.push(Arg::Text(String::from_str("0")));
    assert(r@.map_values(|a: Arg| a@) =~= seq![
        ArgView::Path(bin@),
        ArgView::Text("web"@),
        ArgView::Text("--no-open"@),
        ArgView::Text("--port"@),
        ArgView::Text("0"@),
    ]);
    r
}

/// Where the host's two output streams are copied: `host.out.log` and
/// `host.err.log` in the log directory.
pub fn host_logs(log_dir: &FsPath) -> (r: (FsPath, FsPath))
    ensures
        r.0@ == log_dir@.push("host.out.log"@),
        r.1@ == log_dir@.push("host.err.log"@),
{
    (log_dir.join("host.out.log"), log_dir.join("host.err.log"))
}

/// How long, in seconds, the host may take to report its URL before its
/// startup counts as failed.
pub const STARTUP_TIMEOUT_SECS: u64 = 90;

/// What happened while waiting for the host to report its URL.
pub enum StartupEvent {
    /// The host printed this line on its standard output.
    Line(String),
    /// Nothing arrived for a while; the host has exited with this status
    /// (as text), or is still running (`None`).
    Quiet(Option<String>),
    /// The host closed its output.
    Closed,
    /// The time allowed for startup, `STARTUP_TIMEOUT_SECS`, is over.
    OutOfTime,
}

/// Why the host did not start.
pub enum StartupError {
    /// It could not be spawned; holds why.
    Spawn(String),
    /// It did not report a URL within `STARTUP_TIMEOUT_SECS`.
    TimedOut,
    /// It exited with this status before reporting a URL.
    Exited(String),
    /// It closed its output before reporting a URL.
    Closed,
}

impl StartupError {
    /// What to tell the user.
    pub fn message(&self) -> (r: String)
        ensures
            self matches StartupError::Spawn(c) ==> r@ == "cannot start the dsh host: "@ + c@,
            self is TimedOut ==> r@ == "the dsh host did not report a URL within "@ + decimal(
                STARTUP_TIMEOUT_SECS as nat,
            ) + "s"@,
            self matches StartupError::Exited(status) ==> r@ == "the dsh host exited with "@
                + status@ + " before reporting a URL"@,
            self is Closed ==> r@ == "the dsh host closed its output before reporting a URL"@,
    {
        match self {
            StartupError::Spawn(c) => {
                let mut r = String::from_str("cannot start the dsh host: ");
                r.append(c.as_str());
                r
            },
            StartupError::TimedOut => {
                let mut r = String::from_str("the dsh host did not report a URL within ");
                r.append(string_of(&decimal_chars(STARTUP_TIMEOUT_SECS)).as_str());
                r.append("s");
                r
            },
            StartupError::Exited(status) => {
                let mut r = String::from_str("the dsh host exited with ");
                r.append(status.as_str());
                r.append(" before reporting a URL");
                r
            },
            StartupError::Closed => String::from_str(
                "the dsh host closed its output before reporting a URL",
            ),
        }
    }
}

/// What to do next while the host starts.
pub enum StartupStep {
    /// The host is up; its UI is at this URL.
    Ready(String),
    /// Keep waiting.
    Wait,
    /// Give up: kill the host first if `kill`, and fail with `error`.
    Abort { kill: bool, error: StartupError },
}

/// Decide, for one event, whether the host's startup is over: a line with a
/// loopback URL means it is up; running out of time or output means it
/// failed and is killed; exiting means it failed on its own.
pub fn startup_step(event: StartupEvent) -> (r: StartupStep)
    ensures
        match event {
            StartupEvent::Line(line) => match startup_url(line@) {
                Some(u) => r matches StartupStep::Ready(url) && url@ == u,
                None => r is Wait,
            },
            StartupEvent::Quiet(None) => r is Wait,
            StartupEvent::Quiet(Some(status)) => r matches StartupStep::Abort {
                kill,
                error: StartupError::Exited(s),
            } && !kill && s@ == status@,
            StartupEvent::Closed => r matches StartupStep::Abort { kill, error } && kill
                && error is Closed,
            StartupEvent::OutOfTime => r matches StartupStep::Abort { kill, error } && kill
                && error is TimedOut,
        },
{
    match event {
        StartupEvent::Line(line) => match extract_url(line.as_str()) {
            Some(url) => StartupStep::Ready(url),
            None => StartupStep::Wait,
        },
        StartupEvent::Quiet(None) => StartupStep::Wait,
        StartupEvent::Quiet(Some(status)) => StartupStep::Abort {
            kill: false,
            error: StartupError::Exited(status),
        },
        StartupEvent::Closed => StartupStep::Abort { kill: true, error: StartupError::Closed },
        StartupEvent::OutOfTime => StartupStep::Abort { kill: true, error: StartupError::TimedOut },
    }
}

} // verus!
