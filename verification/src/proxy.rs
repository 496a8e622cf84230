//! The loopback CONNECT proxy's decisions: which host a pattern matches, which
//! hosts a policy lets through, which requests are this run's client's, where
//! a request may be tunnelled, which addresses a name may never reach, the
//! client's credential, and the record of each decision. The listener, the
//! sockets and the audit file are the host's.

use vstd::prelude::*;
use crate::text::{chars_of, decimal, owned, parse_u16, push_char, push_decimal, push_str, same_text, string_of};
use crate::json_text::{json_escaped, listed, parse_string_list, push_json_escaped, string_list};
use crate::proxy_audit::{decision, Decision};
use crate::proxy_egress::{basic_credential, basic_text, Dial};
use crate::runtime::{parse_url, url_parts};
use crate::words::{is_space, rsplit_once, rsplit_once_at, split_once, split_once_at, strip_prefix, strip_prefix_of, texts, trim};

verus! {

// ---------------------------------------------------------------------------
// Host patterns
// ---------------------------------------------------------------------------

/// ASCII letters folded to lowercase; every other character as it is.
pub open spec fn fold_case(c: char) -> char {
    if 'A' <= c <= 'Z' { ((c as u32) + 32) as char } else { c }
}

/// `eq_ignore_ascii_case`.
pub open spec fn same_ignoring_case(a: Seq<char>, b: Seq<char>) -> bool {
    a.len() == b.len() && forall|i: int| 0 <= i < a.len() ==> fold_case(#[trigger] a[i]) == fold_case(b[i])
}

pub(crate) fn fold(c: char) -> (r: char)
    ensures
        r == fold_case(c),
{
    if 'A' <= c && c <= 'Z' {
        let u = (c as u32) + 32;
        let lower = if u == 97 { 'a' } else if u == 98 { 'b' } else if u == 99 { 'c' } else if u == 100 { 'd' }
        else if u == 101 { 'e' } else if u == 102 { 'f' } else if u == 103 { 'g' } else if u == 104 { 'h' }
        else if u == 105 { 'i' } else if u == 106 { 'j' } else if u == 107 { 'k' } else if u == 108 { 'l' }
        else if u == 109 { 'm' } else if u == 110 { 'n' } else if u == 111 { 'o' } else if u == 112 { 'p' }
        else if u == 113 { 'q' } else if u == 114 { 'r' } else if u == 115 { 's' } else if u == 116 { 't' }
        else if u == 117 { 'u' } else if u == 118 { 'v' } else if u == 119 { 'w' } else if u == 120 { 'x' }
        else if u == 121 { 'y' } else { 'z' };
        assert(lower == ((c as u32) + 32) as char);
        lower
    } else {
        c
    }
}

/// Whether `a[i..]` and `b` are the same ignoring ASCII case.
fn same_case_folded_at(a: &[char], start: usize, b: &[char]) -> (r: bool)
    requires
        start <= a@.len(),
    ensures
        r == same_ignoring_case(a@.subrange(start as int, a@.len() as int), b@),
{
    if a.len() - start != b.len() {
        return false;
    }
    let mut i: usize = 0;
    while i < b.len()
        invariant
            i <= b@.len(),
            a@.len() - start == b@.len(),
            start <= a@.len(),
            forall|k: int| 0 <= k < i ==> fold_case(a@[start + k]) == fold_case(#[trigger] b@[k]),
        decreases b.len() - i,
    {
        let alen = a.len();
        assert(start + i < alen);
        if fold(a[start + i]) != fold(b[i]) {
            assert(a@.subrange(start as int, a@.len() as int)[i as int] == a@[start + i]);
            return false;
        }
        i = i + 1;
    }
    assert forall|k: int| 0 <= k < b@.len() implies fold_case(#[trigger] a@.subrange(start as int, a@.len() as int)[k])
        == fold_case(b@[k]) by {
        assert(a@.subrange(start as int, a@.len() as int)[k] == a@[start + k]);
    }
    true
}

/// `s` without one trailing dot.
pub open spec fn without_dot(s: Seq<char>) -> Seq<char> {
    if s.len() > 0 && s.last() == '.' { s.drop_last() } else { s }
}

/// Whether `host` matches `pattern`: the same name ignoring ASCII case and
/// one trailing dot, or, for `*.example.com`, `example.com` itself or any
/// proper subdomain of it.
pub open spec fn host_match(host: Seq<char>, pattern: Seq<char>) -> bool {
    let h = without_dot(host);
    let p = without_dot(pattern);
    same_ignoring_case(p, h) || match strip_prefix(p, "*."@) {
        Some(suffix) => same_ignoring_case(h, suffix) || (h.len() > suffix.len() + 1 && same_ignoring_case(
            h.subrange(h.len() - suffix.len() - 1, h.len() as int),
            seq!['.'] + suffix,
        )),
        None => false,
    }
}

fn drop_dot(s: &str) -> (r: Vec<char>)
    ensures
        r@ == without_dot(s@),
{
    let mut chars = chars_of(s);
    if chars.len() > 0 && chars[chars.len() - 1] == '.' {
        chars.pop();
    }
    chars
}

/// Match a hostname against a pattern supporting `*.example.com` subdomain
/// wildcards: `*.example.com` matches `example.com` itself and any proper
/// subdomain, not `evilexample.com`; case does not count, and one trailing
/// dot is the same name.
pub fn host_matches(host: &str, pattern: &str) -> (r: bool)
    ensures
        r == host_match(host@, pattern@),
{
    let h = drop_dot(host);
    let p = drop_dot(pattern);
    if same_case_folded_at(p.as_slice(), 0, h.as_slice()) {
        assert(p@.subrange(0, p@.len() as int) =~= p@);
        return true;
    }
    assert(p@.subrange(0, p@.len() as int) =~= p@);
    let star = chars_of("*.");
    match strip_prefix_of(p.as_slice(), star.as_slice()) {
        Some(suffix) => {
            if same_case_folded_at(h.as_slice(), 0, suffix.as_slice()) {
                assert(h@.subrange(0, h@.len() as int) =~= h@);
                return true;
            }
            assert(h@.subrange(0, h@.len() as int) =~= h@);
            if suffix.len() < h.len() && h.len() - suffix.len() > 1 {
                let mut dotted: Vec<char> = Vec::new();
                dotted.push('.');
                let mut i: usize = 0;
                while i < suffix.len()
                    invariant
                        i <= suffix@.len(),
                        dotted@ == seq!['.'] + suffix@.take(i as int),
                    decreases suffix.len() - i,
                {
                    dotted.push(suffix[i]);
                    assert(dotted@ =~= seq!['.'] + suffix@.take(i + 1));
                    i = i + 1;
                }
                assert(suffix@.take(suffix@.len() as int) =~= suffix@);
                let start = h.len() - suffix.len() - 1;
                return same_case_folded_at(h.as_slice(), start, dotted.as_slice());
            }
            false
        },
        None => false,
    }
}

/// Whether the hosts a policy lists are the only ones let through, or the
/// only ones kept out.
#[derive(Clone, Copy, PartialEq, Eq, Debug, Structural)]
pub enum ProxyMode {
    Allow,
    Deny,
}

/// What the proxy lets through, and the credential its client presents.
pub struct ProxyPolicy {
    pub mode: ProxyMode,
    pub patterns: Vec<String>,
    pub credential: String,
}

/// Some pattern of `patterns` matches `host`.
pub open spec fn any_match(patterns: Seq<Seq<char>>, host: Seq<char>) -> bool {
    exists|i: int| 0 <= i < patterns.len() && host_match(host, #[trigger] patterns[i])
}

/// Whether a policy lets `host` through.
pub open spec fn allows(mode: ProxyMode, patterns: Seq<Seq<char>>, host: Seq<char>) -> bool {
    match mode {
        ProxyMode::Allow => any_match(patterns, host),
        ProxyMode::Deny => !any_match(patterns, host),
    }
}

/// Whether the policy lets `host` through.
pub fn policy_allows(policy: &ProxyPolicy, host: &str) -> (r: bool)
    ensures
        r == allows(policy.mode, texts(policy.patterns@), host@),
{
    let mut matched = false;
    let mut i: usize = 0;
    while i < policy.patterns.len()
        invariant
            i <= policy.patterns@.len(),
            matched == exists|k: int| 0 <= k < i && host_match(host@, #[trigger] texts(policy.patterns@)[k]),
        decreases policy.patterns.len() - i,
    {
        if host_matches(host, policy.patterns[i].as_str()) {
            assert(host_match(host@, texts(policy.patterns@)[i as int]));
            matched = true;
        }
        i = i + 1;
    }
    match policy.mode {
        ProxyMode::Allow => matched,
        ProxyMode::Deny => !matched,
    }
}

/// The policy two JSON lists of patterns ask for, a list that does not parse
/// counting as empty: exactly one of them must be given, an allow-list and a
/// deny-list together having no single meaning. The credential is filled in
/// once the run's token is minted.
pub fn requested_policy(allow_json: &str, deny_json: &str) -> (r: Result<ProxyPolicy, String>)
    ensures
        ({
            let allow = listed(allow_json@);
            let deny = listed(deny_json@);
            &&& allow.len() > 0 && deny.len() > 0 ==> r is Err && r->Err_0@ == "allow and deny are mutually exclusive"@
            &&& allow.len() > 0 && deny.len() == 0 ==> r is Ok && r->Ok_0.mode == ProxyMode::Allow && texts(
                r->Ok_0.patterns@,
            ) == allow && r->Ok_0.credential@.len() == 0
            &&& allow.len() == 0 && deny.len() > 0 ==> r is Ok && r->Ok_0.mode == ProxyMode::Deny && texts(
                r->Ok_0.patterns@,
            ) == deny && r->Ok_0.credential@.len() == 0
            &&& allow.len() == 0 && deny.len() == 0 ==> r is Err && r->Err_0@ == "neither allow nor deny list provided"@
        }),
{
    let allow = match parse_string_list(allow_json) {
        Ok(l) => l,
        Err(_) => Vec::new(),
    };
    let deny = match parse_string_list(deny_json) {
        Ok(l) => l,
        Err(_) => Vec::new(),
    };
    proof {
        assert(texts(Seq::<String>::empty()) =~= Seq::<Seq<char>>::empty());
    }
    if allow.len() > 0 && deny.len() > 0 {
        Err(owned("allow and deny are mutually exclusive"))
    } else if allow.len() > 0 {
        Ok(ProxyPolicy { mode: ProxyMode::Allow, patterns: allow, credential: String::new() })
    } else if deny.len() > 0 {
        Ok(ProxyPolicy { mode: ProxyMode::Deny, patterns: deny, credential: String::new() })
    } else {
        Err(owned("neither allow nor deny list provided"))
    }
}

// ---------------------------------------------------------------------------
// Requests
// ---------------------------------------------------------------------------

/// The header carries this run's credential: its name is
/// `Proxy-Authorization` in any case, its value the credential.
pub open spec fn carries(header: Seq<char>, credential: Seq<char>) -> bool {
    match split_once(header, ":"@) {
        Some(h) => same_ignoring_case(trim(h.0), "proxy-authorization"@) && trim(h.1) == credential,
        None => false,
    }
}

/// Whether the request carries this run's credential.
pub fn authorised(headers: &[String], credential: &str) -> (r: bool)
    ensures
        r == exists|i: int| 0 <= i < headers@.len() && carries(#[trigger] headers@[i]@, credential@),
{
    let colon = chars_of(":");
    let name = chars_of("proxy-authorization");
    let mut i: usize = 0;
    while i < headers.len()
        invariant
            i <= headers@.len(),
            colon@ == ":"@,
            name@ == "proxy-authorization"@,
            forall|k: int| 0 <= k < i ==> !carries(#[trigger] headers@[k]@, credential@),
        decreases headers.len() - i,
    {
        let chars = chars_of(headers[i].as_str());
        match split_once_at(chars.as_slice(), colon.as_slice()) {
            Some((n, v)) => {
                let tn = crate::words::trimmed(n.as_slice());
                let tv = crate::words::trimmed(v.as_slice());
                let cred = chars_of(credential);
                if same_case_folded_at(tn.as_slice(), 0, name.as_slice()) && crate::text::slices_equal(
                    tv.as_slice(),
                    cred.as_slice(),
                ) {
                    assert(tn@.subrange(0, tn@.len() as int) =~= tn@);
                    return true;
                }
                assert(tn@.subrange(0, tn@.len() as int) =~= tn@);
            },
            None => {},
        }
        i = i + 1;
    }
    false
}

/// Splits `host:port` at its last colon, defaulting to HTTPS when no port is
/// given; a port that is not a number is 0, which the port check refuses.
pub open spec fn authority(target: Seq<char>) -> (Seq<char>, u16) {
    match rsplit_once(target, ":"@) {
        Some(h) => (h.0, match parse_u16(h.1) {
            Some(p) => p,
            None => 0,
        }),
        None => (target, 443),
    }
}

/// Splits `host:port`.
pub fn split_authority(target: &str) -> (r: (String, u16))
    ensures
        r.0@ == authority(target@).0 && r.1 == authority(target@).1,
{
    let chars = chars_of(target);
    let colon = chars_of(":");
    match rsplit_once_at(chars.as_slice(), colon.as_slice()) {
        Some((host, port)) => {
            let p = match crate::text::parse_port(port.as_slice()) {
                Some(p) => p,
                None => 0,
            };
            (string_of(host.as_slice()), p)
        },
        None => (owned(target), 443),
    }
}

/// The words of `s`, as `split_whitespace` gives them.
pub open spec fn words(s: Seq<char>) -> Seq<Seq<char>>
    decreases s.len(),
{
    let t = crate::words::trim_start(s);
    if t.len() == 0 {
        Seq::empty()
    } else {
        let n = crate::why::space_index(t);
        if 0 < n <= t.len() {
            proof {
                crate::words::lemma_trim_start_head(s);
            }
            seq![t.subrange(0, n)] + words(t.subrange(n, t.len() as int))
        } else {
            Seq::empty()
        }
    }
}

/// The first two words of `s`, when it has at least two.
fn first_two_words(s: &str) -> (r: Option<(String, String)>)
    ensures
        match r {
            Some(w) => words(s@).len() >= 2 && words(s@)[0] == w.0@ && words(s@)[1] == w.1@,
            None => words(s@).len() < 2,
        },
{
    let chars = chars_of(s);
    let t = crate::words::trimmed_start(chars.as_slice());
    proof { crate::words::lemma_trim_start_head(chars@); }
    if t.len() == 0 {
        return None;
    }
    let mut n: usize = 0;
    while n < t.len() && !crate::words::space(t[n])
        invariant
            n <= t@.len(),
            forall|k: int| 0 <= k < n ==> !is_space(#[trigger] t@[k]),
        decreases t.len() - n,
    {
        n = n + 1;
    }
    proof {
        crate::why::lemma_space_index_public(t@);
        let w = crate::why::space_index(t@);
        assert(w == n) by {
            if w < n {
                assert(!is_space(t@[w]));
            }
            if w > n {
                assert(is_space(t@[n as int]));
            }
        }
    }
    let first = crate::text::slice_text(t.as_slice(), 0, n);
    let rest = crate::text::slice_chars(t.as_slice(), n, t.len());
    proof {
        assert(n > 0) by {
            if n == 0 {
                assert(!is_space(t@[0]));
                assert(t@.len() > 0);
            }
        }
        assert(words(s@) == seq![first@] + words(rest@));
    }
    let u = crate::words::trimmed_start(rest.as_slice());
    proof { crate::words::lemma_trim_start_head(rest@); }
    if u.len() == 0 {
        return None;
    }
    let mut m: usize = 0;
    while m < u.len() && !crate::words::space(u[m])
        invariant
            m <= u@.len(),
            forall|k: int| 0 <= k < m ==> !is_space(#[trigger] u@[k]),
        decreases u.len() - m,
    {
        m = m + 1;
    }
    proof {
        crate::why::lemma_space_index_public(u@);
        let w = crate::why::space_index(u@);
        assert(w == m) by {
            if w < m {
                assert(!is_space(u@[w]));
            }
            if w > m {
                assert(is_space(u@[m as int]));
            }
        }
        assert(m > 0) by {
            if m == 0 {
                assert(!is_space(u@[0]));
            }
        }
        let rest_words = words(rest@);
        assert(rest_words == seq![u@.subrange(0, m as int)] + words(u@.subrange(m as int, u@.len() as int)));
    }
    let second = crate::text::slice_text(u.as_slice(), 0, m);
    Some((first, second))
}

/// What a refused request is answered and recorded with.
pub struct Refusal {
    pub status: &'static str,
    pub decision: Decision,
}

/// Where a request may be tunnelled: only this run's client, only CONNECT,
/// only port 443, only a host the policy lets through. `None` is the
/// tunnel's target; a refusal is the status line and the decision to record.
pub open spec fn connect_outcome(line: Seq<char>, headers: Seq<Seq<char>>, mode: ProxyMode, patterns: Seq<Seq<char>>, credential: Seq<char>) -> Result<(Seq<char>, u16), (Seq<char>, Seq<char>, u16, Seq<char>)> {
    let parts = words(trim(line));
    if parts.len() < 2 || !same_ignoring_case(parts[0], "CONNECT"@) {
        Err(("HTTP/1.1 400 Bad Request\r\n\r\n"@, "<invalid>"@, 0, "non-CONNECT method"@))
    } else {
        let a = authority(parts[1]);
        if !(exists|i: int| 0 <= i < headers.len() && carries(#[trigger] headers[i], credential)) {
            Err((
                "HTTP/1.1 407 Proxy Authentication Required\r\nProxy-Authenticate: Basic realm=\"porta\"\r\n\r\n"@,
                a.0,
                a.1,
                "not this run's client: no proxy credential"@,
            ))
        } else if a.1 != 443 {
            Err(("HTTP/1.1 403 Forbidden\r\n\r\n"@, a.0, a.1, "non-443 port"@))
        } else if !allows(mode, patterns, a.0) {
            Err(("HTTP/1.1 403 Forbidden\r\n\r\n"@, a.0, a.1, "policy"@))
        } else {
            Ok(a)
        }
    }
}

/// Where this request may be tunnelled, or the status line and the record
/// of why it may not.
pub fn connect_target(request_line: &str, headers: &[String], policy: &ProxyPolicy) -> (r: Result<(String, u16), Refusal>)
    ensures
        match connect_outcome(request_line@, texts(headers@), policy.mode, texts(policy.patterns@), policy.credential@) {
            Ok(a) => r is Ok && r->Ok_0.0@ == a.0 && r->Ok_0.1 == a.1,
            Err(e) => r is Err && r->Err_0.status@ == e.0 && r->Err_0.decision.host@ == e.1 && r->Err_0.decision.port
                == e.2 && r->Err_0.decision.verdict@ == "deny"@ && r->Err_0.decision.reason@ == e.3,
        },
{
    let chars = chars_of(request_line);
    let line = string_of(crate::words::trimmed(chars.as_slice()).as_slice());
    let parts = first_two_words(line.as_str());
    let connect = chars_of("CONNECT");
    let (method, target) = match parts {
        None => {
            return Err(Refusal {
                status: "HTTP/1.1 400 Bad Request\r\n\r\n",
                decision: decision("<invalid>", 0, "deny", "non-CONNECT method"),
            });
        },
        Some(p) => p,
    };
    let mc = chars_of(method.as_str());
    if !same_case_folded_at(mc.as_slice(), 0, connect.as_slice()) {
        assert(mc@.subrange(0, mc@.len() as int) =~= mc@);
        return Err(Refusal {
            status: "HTTP/1.1 400 Bad Request\r\n\r\n",
            decision: decision("<invalid>", 0, "deny", "non-CONNECT method"),
        });
    }
    assert(mc@.subrange(0, mc@.len() as int) =~= mc@);
    let (host, port) = split_authority(target.as_str());
    proof {
        let hs = texts(headers@);
        assert((exists|i: int| 0 <= i < hs.len() && carries(#[trigger] hs[i], policy.credential@)) <==> (exists|i: int|
            0 <= i < headers@.len() && carries(#[trigger] headers@[i]@, policy.credential@))) by {
            if exists|i: int| 0 <= i < hs.len() && carries(#[trigger] hs[i], policy.credential@) {
                let i = choose|i: int| 0 <= i < hs.len() && carries(#[trigger] hs[i], policy.credential@);
                assert(hs[i] == headers@[i]@);
            }
            if exists|i: int| 0 <= i < headers@.len() && carries(#[trigger] headers@[i]@, policy.credential@) {
                let i = choose|i: int| 0 <= i < headers@.len() && carries(#[trigger] headers@[i]@, policy.credential@);
                assert(hs[i] == headers@[i]@);
            }
        }
    }
    if !authorised(headers, policy.credential.as_str()) {
        return Err(Refusal {
            status: "HTTP/1.1 407 Proxy Authentication Required\r\nProxy-Authenticate: Basic realm=\"porta\"\r\n\r\n",
            decision: decision(host.as_str(), port, "deny", "not this run's client: no proxy credential"),
        });
    }
    if port != 443 {
        return Err(Refusal {
            status: "HTTP/1.1 403 Forbidden\r\n\r\n",
            decision: decision(host.as_str(), port, "deny", "non-443 port"),
        });
    }
    if !policy_allows(policy, host.as_str()) {
        return Err(Refusal {
            status: "HTTP/1.1 403 Forbidden\r\n\r\n",
            decision: decision(host.as_str(), port, "deny", "policy"),
        });
    }
    Ok((host, port))
}

/// The status line a tunnelled request is answered with, and the decision
/// recorded: refused where the name leads only to blocked addresses, an
/// error where the upstream could not be reached, else established.
pub fn tunnel_reply(host: &str, port: u16, dialled: &Result<(), Dial>) -> (r: (&'static str, Decision))
    ensures
        r.1.host@ == host@ && r.1.port == port,
        match dialled {
            Ok(_) => r.0@ == "HTTP/1.1 200 Connection Established\r\n\r\n"@ && r.1.verdict@ == "allow"@
                && r.1.reason@ == "policy match"@,
            Err(Dial::Blocked(reason)) => r.0@ == "HTTP/1.1 403 Forbidden\r\n\r\n"@ && r.1.verdict@ == "deny"@
                && r.1.reason@ == reason@,
            Err(Dial::Failed(reason)) => r.0@ == "HTTP/1.1 502 Bad Gateway\r\n\r\n"@ && r.1.verdict@ == "error"@
                && r.1.reason@ == reason@,
        },
{
    match dialled {
        Ok(_) => ("HTTP/1.1 200 Connection Established\r\n\r\n", decision(host, port, "allow", "policy match")),
        Err(Dial::Blocked(reason)) => ("HTTP/1.1 403 Forbidden\r\n\r\n", decision(host, port, "deny", reason.as_str())),
        Err(Dial::Failed(reason)) => ("HTTP/1.1 502 Bad Gateway\r\n\r\n", decision(host, port, "error", reason.as_str())),
    }
}

/// The policy with the credential of the run's token.
pub fn credentialed(policy: ProxyPolicy, token: &str) -> (r: ProxyPolicy)
    ensures
        r.mode == policy.mode && r.patterns@ == policy.patterns@ && r.credential@ == basic_text(token@),
{
    ProxyPolicy { mode: policy.mode, patterns: policy.patterns, credential: basic_credential(token) }
}

// ---------------------------------------------------------------------------
// The registry of running proxies
// ---------------------------------------------------------------------------

/// The running proxies, each under the handle it was started with; a stopped
/// one leaves an empty slot, so handles are never reused.
pub struct Proxies<T> {
    slots: Vec<Option<T>>,
}

impl<T> View for Proxies<T> {
    type V = Seq<Option<T>>;

    closed spec fn view(&self) -> Seq<Option<T>> {
        self.slots@
    }
}

impl<T> Proxies<T> {
    /// No proxy running.
    pub fn new() -> (r: Self)
        ensures
            r@ == Seq::<Option<T>>::empty(),
    {
        Proxies { slots: Vec::new() }
    }

    /// Registers a running proxy under the next handle.
    pub fn register(&mut self, proxy: T) -> (handle: usize)
        ensures
            handle == old(self)@.len(),
            final(self)@ == old(self)@.push(Some(proxy)),
    {
        self.slots.push(Some(proxy));
        self.slots.len() - 1
    }
}

/// The reply of a proxy that started: its handle, port and token.
pub open spec fn started_text(handle: nat, port: u16, token: Seq<char>) -> Seq<char> {
    "{\"handle\":"@ + decimal(handle) + ",\"port\":"@ + decimal(port as nat) + ",\"token\":\""@ + json_escaped(token) + "\"}"@
}

/// The reply of a proxy that could not start, the reason escaped.
pub open spec fn start_error_text(reason: Seq<char>) -> Seq<char> {
    "{\"error\":\""@ + json_escaped(reason) + "\"}"@
}

/// Start the CONNECT proxy: `started` is the running proxy, the loopback
/// port it listens on and the run's token, or why it could not start (the
/// policy refused, the listener failed). A running proxy is registered under
/// the next handle; the reply is `{"handle":…,"port":…,"token":"…"}` or
/// `{"error":"…"}`.
pub fn wt_proxy_start<T>(proxies: &mut Proxies<T>, started: Result<(T, u16, String), String>) -> (r: String)
    ensures
        match started {
            Ok(s) => final(proxies)@ == old(proxies)@.push(Some(s.0)) && r@ == started_text(
                old(proxies)@.len(),
                s.1,
                s.2@,
            ),
            Err(reason) => final(proxies)@ == old(proxies)@ && r@ == start_error_text(reason@),
        },
{
    match started {
        Ok((proxy, port, token)) => {
            let handle = proxies.register(proxy);
            let mut r = owned("{\"handle\":");
            push_decimal(&mut r, handle as u64);
            push_str(&mut r, ",\"port\":");
            push_decimal(&mut r, port as u64);
            push_str(&mut r, ",\"token\":\"");
            push_json_escaped(&mut r, token.as_str());
            push_str(&mut r, "\"}");
            r
        },
        Err(reason) => {
            let mut r = owned("{\"error\":\"");
            push_json_escaped(&mut r, reason.as_str());
            push_str(&mut r, "\"}");
            r
        },
    }
}

/// Stop the proxy under this handle: 0 and the proxy to shut down where the
/// handle names a slot (its slot emptied), -1 where it names none.
pub fn wt_proxy_stop<T>(proxies: &mut Proxies<T>, handle: i64) -> (r: (i64, Option<T>))
    ensures
        0 <= handle < old(proxies)@.len() ==> r.0 == 0 && r.1 == old(proxies)@[handle as int]
            && final(proxies)@ == old(proxies)@.update(handle as int, None),
        handle < 0 || handle >= old(proxies)@.len() ==> r.0 == -1 && r.1 is None && final(proxies)@ == old(proxies)@,
{
    if handle < 0 {
        return (-1, None);
    }
    if handle as u64 >= proxies.slots.len() as u64 {
        return (-1, None);
    }
    let index = handle as usize;
    let mut slot = None;
    std::mem::swap(&mut slot, &mut proxies.slots[index]);
    (0, slot)
}

// ---------------------------------------------------------------------------
// Direct requests
// ---------------------------------------------------------------------------

/// A rule `host:port` admits `host` at `port`: `*` or the same host ignoring
/// ASCII case, and `*` or the same port.
pub open spec fn rule_admits(rule: Seq<char>, host: Seq<char>, port: u16) -> bool {
    match rsplit_once(rule, ":"@) {
        Some(r) => (r.0 == "*"@ || same_ignoring_case(r.0, host)) && (r.1 == "*"@ || parse_u16(r.1) == Some(port)),
        None => false,
    }
}

/// Whether a direct request to `url` is allowed: the URL parses, is HTTP or
/// HTTPS, carries no credentials, has a host and a port, and some rule of the
/// JSON list `allowed_json` admits them.
pub open spec fn host_allowed(url: Seq<char>, allowed_json: Seq<char>) -> bool {
    match url_parts(url) {
        None => false,
        Some(p) => (p.0 == "http"@ || p.0 == "https"@) && p.2.len() == 0 && !p.3 && p.1 is Some && p.6 is Some
            && match string_list(allowed_json) {
            Some(rules) => exists|i: int| 0 <= i < rules.len() && rule_admits(#[trigger] rules[i], p.1.unwrap(), p.6.unwrap()),
            None => false,
        },
    }
}

fn admits(rule: &str, host: &str, port: u16) -> (r: bool)
    ensures
        r == rule_admits(rule@, host@, port),
{
    let chars = chars_of(rule);
    let colon = chars_of(":");
    match rsplit_once_at(chars.as_slice(), colon.as_slice()) {
        Some((h, p)) => {
            let star = chars_of("*");
            let hs = chars_of(host);
            let host_ok = crate::text::slices_equal(h.as_slice(), star.as_slice()) || same_case_folded_at(
                h.as_slice(),
                0,
                hs.as_slice(),
            );
            proof {
                assert(h@.subrange(0, h@.len() as int) =~= h@);
            }
            let port_ok = crate::text::slices_equal(p.as_slice(), star.as_slice()) || match crate::text::parse_port(
                p.as_slice(),
            ) {
                Some(q) => q == port,
                None => false,
            };
            host_ok && port_ok
        },
        None => false,
    }
}

fn any_admits(rules: &[String], host: &str, port: u16) -> (r: bool)
    ensures
        r == exists|i: int| 0 <= i < rules@.len() && rule_admits(#[trigger] texts(rules@)[i], host@, port),
{
    let mut i: usize = 0;
    while i < rules.len()
        invariant
            i <= rules@.len(),
            forall|k: int| 0 <= k < i ==> !rule_admits(#[trigger] texts(rules@)[k], host@, port),
        decreases rules.len() - i,
    {
        if admits(rules[i].as_str(), host, port) {
            assert(rule_admits(texts(rules@)[i as int], host@, port));
            return true;
        }
        i = i + 1;
    }
    false
}

/// Whether a direct request to `url` is allowed by the rules of
/// `allowed_json`, read with the same URL parser as the HTTP transport.
pub fn wt_is_host_allowed(url: &str, allowed_json: &str) -> (r: bool)
    ensures
        r == host_allowed(url@, allowed_json@),
{
    let (scheme, host, username, password, port) = match parse_url(url) {
        None => return false,
        Some((scheme, host, username, password, _, _, port)) => (scheme, host, username, password, port),
    };
    if !(same_text(scheme.as_str(), "http") || same_text(scheme.as_str(), "https")) || username.unicode_len() > 0
        || password {
        return false;
    }
    let (host, port) = match (host, port) {
        (Some(h), Some(p)) => (h, p),
        _ => return false,
    };
    let rules = match parse_string_list(allowed_json) {
        Err(_) => return false,
        Ok(rules) => rules,
    };
    let r = any_admits(rules.as_slice(), host.as_str(), port);
    proof {
        let p = url_parts(url@).unwrap();
        assert(p.1.unwrap() == host@ && p.6.unwrap() == port);
    }
    r
}

// ---------------------------------------------------------------------------
// Laws
// ---------------------------------------------------------------------------

/// One trailing dot is the same name, as DNS reads it: a pattern that
/// matches a name matches it written with a trailing dot, and no other.
pub proof fn law_trailing_dot_is_the_same_name(host: Seq<char>, pattern: Seq<char>)
    requires
        host.len() == 0 || host.last() != '.',
    ensures
        host_match(host.push('.'), pattern) == host_match(host, pattern),
{
    assert(without_dot(host.push('.')) =~= host);
    assert(without_dot(host) == host);
}

/// Case does not count: a name matches a pattern exactly when the same
/// name with its ASCII letters folded to lowercase does.
pub proof fn law_case_does_not_count(host: Seq<char>, pattern: Seq<char>)
    ensures
        host_match(host.map_values(|c: char| fold_case(c)), pattern) == host_match(host, pattern),
{
    let folded = host.map_values(|c: char| fold_case(c));
    let h = without_dot(host);
    let g = without_dot(folded);
    if host.len() > 0 {
        assert(folded.last() == fold_case(host.last()));
    }
    assert(g.len() == h.len());
    assert forall|i: int| 0 <= i < g.len() implies fold_case(#[trigger] g[i]) == fold_case(h[i]) by {
        assert(g[i] == folded[i] && h[i] == host[i]);
    }
    let p = without_dot(pattern);
    lemma_fold_alike(g, h, p);
    match strip_prefix(p, "*."@) {
        Some(suffix) => {
            lemma_fold_alike(g, h, suffix);
            if g.len() > suffix.len() + 1 {
                lemma_fold_alike_tail(g, h, suffix);
            }
        },
        None => {},
    }
}

/// Two names that fold alike compare alike with any name.
proof fn lemma_fold_alike(g: Seq<char>, h: Seq<char>, s: Seq<char>)
    requires
        g.len() == h.len(),
        forall|i: int| 0 <= i < g.len() ==> fold_case(#[trigger] g[i]) == fold_case(h[i]),
    ensures
        same_ignoring_case(s, g) == same_ignoring_case(s, h),
        same_ignoring_case(g, s) == same_ignoring_case(h, s),
{
    if same_ignoring_case(s, g) {
        assert forall|i: int| 0 <= i < s.len() implies fold_case(#[trigger] s[i]) == fold_case(h[i]) by {
            assert(fold_case(g[i]) == fold_case(h[i]));
        }
    }
    if same_ignoring_case(s, h) {
        assert forall|i: int| 0 <= i < s.len() implies fold_case(#[trigger] s[i]) == fold_case(g[i]) by {
            assert(fold_case(g[i]) == fold_case(h[i]));
        }
    }
    if same_ignoring_case(g, s) {
        assert forall|i: int| 0 <= i < h.len() implies fold_case(#[trigger] h[i]) == fold_case(s[i]) by {
            assert(fold_case(g[i]) == fold_case(h[i]));
        }
    }
    if same_ignoring_case(h, s) {
        assert forall|i: int| 0 <= i < g.len() implies fold_case(#[trigger] g[i]) == fold_case(s[i]) by {
            assert(fold_case(g[i]) == fold_case(h[i]));
        }
    }
}

/// Two names that fold alike end alike.
proof fn lemma_fold_alike_tail(g: Seq<char>, h: Seq<char>, s: Seq<char>)
    requires
        g.len() == h.len(),
        g.len() > s.len() + 1,
        forall|i: int| 0 <= i < g.len() ==> fold_case(#[trigger] g[i]) == fold_case(h[i]),
    ensures
        same_ignoring_case(g.subrange(g.len() - s.len() - 1, g.len() as int), seq!['.'] + s) == same_ignoring_case(
            h.subrange(h.len() - s.len() - 1, h.len() as int),
            seq!['.'] + s,
        ),
{
    let a = g.subrange(g.len() - s.len() - 1, g.len() as int);
    let b = h.subrange(h.len() - s.len() - 1, h.len() as int);
    assert forall|i: int| 0 <= i < a.len() implies fold_case(#[trigger] a[i]) == fold_case(b[i]) by {
        assert(a[i] == g[g.len() - s.len() - 1 + i]);
        assert(b[i] == h[h.len() - s.len() - 1 + i]);
    }
    lemma_fold_alike(a, b, seq!['.'] + s);
}

/// `*.example.com` matches `example.com` itself.
pub proof fn law_wildcard_covers_its_domain(domain: Seq<char>)
    requires
        domain.len() > 0,
        domain.last() != '.',
    ensures
        host_match(domain, "*."@ + domain),
{
    reveal_strlit("*.");
    let p = "*."@ + domain;
    assert(without_dot(domain) == domain);
    assert(p.last() == domain.last());
    assert(without_dot(p) == p);
    assert(strip_prefix(p, "*."@) == Some(domain)) by {
        assert(p.subrange(0, 2) =~= "*."@);
        assert(p.subrange(2, p.len() as int) =~= domain);
    }
    assert(same_ignoring_case(domain, domain));
}

/// `*.example.com` does not match a name that only ends in `example.com`,
/// such as `evilexample.com`: a subdomain is separated by a dot.
pub proof fn law_wildcard_needs_a_dot(prefix: Seq<char>, domain: Seq<char>)
    requires
        domain.len() > 0,
        domain.last() != '.',
        prefix.len() > 0,
        prefix.last() != '.',
        forall|i: int| 0 <= i < prefix.len() ==> 'a' <= #[trigger] prefix[i] <= 'z',
    ensures
        !host_match(prefix + domain, "*."@ + domain),
{
    reveal_strlit("*.");
    let host = prefix + domain;
    let p = "*."@ + domain;
    assert(host.last() == domain.last());
    assert(without_dot(host) == host);
    assert(p.last() == domain.last());
    assert(without_dot(p) == p);
    assert(p[0] == '*');
    assert(!same_ignoring_case(p, host)) by {
        if p.len() == host.len() {
            assert(fold_case(p[0]) == '*');
            assert(fold_case(host[0]) != '*');
        }
    }
    assert(strip_prefix(p, "*."@) == Some(domain)) by {
        assert(p.subrange(0, 2) =~= "*."@);
        assert(p.subrange(2, p.len() as int) =~= domain);
    }
    assert(!same_ignoring_case(host, domain));
    if host.len() > domain.len() + 1 {
        let tail = host.subrange(host.len() - domain.len() - 1, host.len() as int);
        assert(tail[0] == prefix.last());
        assert(fold_case(tail[0]) != '.');
        assert(!same_ignoring_case(tail, seq!['.'] + domain)) by {
            assert((seq!['.'] + domain)[0] == '.');
        }
    }
}

/// A request is tunnelled only for this run's client, only by CONNECT, only
/// to port 443 and only to a host the policy lets through.
pub proof fn law_only_policy_traffic_is_tunnelled(line: Seq<char>, headers: Seq<Seq<char>>, mode: ProxyMode, patterns: Seq<Seq<char>>, credential: Seq<char>)
    requires
        connect_outcome(line, headers, mode, patterns, credential) is Ok,
    ensures
        ({
            let a = connect_outcome(line, headers, mode, patterns, credential)->Ok_0;
            &&& a.1 == 443
            &&& allows(mode, patterns, a.0)
            &&& exists|i: int| 0 <= i < headers.len() && carries(#[trigger] headers[i], credential)
        }),
{
}

/// An allow-list and a deny-list of the same patterns let through exactly
/// opposite hosts.
pub proof fn law_deny_is_the_complement_of_allow(patterns: Seq<Seq<char>>, host: Seq<char>)
    ensures
        allows(ProxyMode::Deny, patterns, host) == !allows(ProxyMode::Allow, patterns, host),
{
}

} // verus!
