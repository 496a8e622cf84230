//! One sandboxed execution request: what it grants, the checks that refuse
//! it before any policy is applied, and what it would do, in words and as
//! JSON, with the command line that reproduces it.

use vstd::prelude::*;
use crate::json_text::{json_array, json_escaped, json_quoted, push_json_array, push_json_escaped, push_json_quoted};
use crate::preset::Closures;
use crate::seccomp::Egress;
use crate::text::{chars_of, decimal, owned, parse_u16, push_char, push_decimal, push_str, same_text, starts, string_of};
use crate::words::{join, join_texts, str_starts, strip_prefix, strip_prefix_of, texts};

verus! {

/// One sandboxed execution request, read once and shared by every way of
/// running it.
#[derive(Clone, Debug)]
pub struct SandboxRequest {
    pub cmd: String,
    pub args: Vec<String>,
    /// The granted mounts, `:ro` marking a read-only one.
    pub allowed_dirs: Vec<String>,
    /// `--allow-net` entries.
    pub allowed_net: Vec<String>,
    /// `-e` values.
    pub env_vars: Vec<(String, String)>,
    pub cwd: String,
    /// `open` or `strict`.
    pub read_policy: String,
    /// The only egress is the loopback proxy named in `allowed_net`.
    pub proxy: bool,
    /// The caller has said that running as root is what they meant.
    pub allow_root: bool,
    /// TCP ports the command may listen on.
    pub allowed_bind: Vec<String>,
    /// No network at all.
    pub no_network: bool,
    /// The preset this run starts from, and what the caller adds to it.
    pub preset: String,
    pub deny_read: Vec<String>,
    pub protect: Vec<String>,
    pub deny_unix: Vec<String>,
    /// The preset and the additions, resolved.
    pub closures: Closures,
    /// Unix socket paths the command may connect to.
    pub allowed_unix: Vec<String>,
    /// Seconds before the run is killed; 0 for none.
    pub timeout: u64,
    /// Per-process ceilings (0 leaves one unset): CPU seconds, processes,
    /// file size in MiB.
    pub max_cpu: u64,
    pub max_procs: u64,
    pub max_file_size: u64,
    /// Resident memory for the whole run, in MiB; 0 for none.
    pub max_memory_mb: u64,
    /// This run's tag for the kernel's denial records.
    pub tag: String,
    /// Say afterwards what the sandbox refused.
    pub why: bool,
    /// Copy the writable mounts first.
    pub snapshot: bool,
    /// The document the request was read from.
    pub raw: String,
}

/// Which platform enforces a run, for the words that differ between them.
#[derive(Clone, Copy, PartialEq, Eq, Debug, Structural)]
pub enum Platform {
    Linux,
    MacOs,
    Other,
}

// ---------------------------------------------------------------------------
// Checks that refuse a request
// ---------------------------------------------------------------------------

/// The refusal of contradictory network flags.
pub open spec fn no_net_contradiction() -> Seq<char> {
    "--no-net closes the network; it cannot also grant --allow-net, --allow-bind or a proxy"@
}

/// The refusal of `--allow-bind` with the network open.
pub open spec fn bind_without_net() -> Seq<char> {
    "--allow-bind only means something once --allow-net closes the network; with the network open every port can already be bound"@
}

/// Network flags that contradict each other, if any do.
pub open spec fn network_contradiction(r: SandboxRequest) -> Option<Seq<char>> {
    if r.no_network && (r.proxy || r.allowed_net@.len() > 0 || r.allowed_bind@.len() > 0) {
        Some(no_net_contradiction())
    } else if r.allowed_bind@.len() > 0 && r.allowed_net@.len() == 0 {
        Some(bind_without_net())
    } else {
        None
    }
}

impl SandboxRequest {
    /// Network flags that contradict each other, if any do.
    pub fn contradictory_network(&self) -> (r: Option<String>)
        ensures
            match r {
                Some(reason) => network_contradiction(*self) == Some(reason@),
                None => network_contradiction(*self) is None,
            },
    {
        if self.no_network && (self.proxy || self.allowed_net.len() > 0 || self.allowed_bind.len() > 0) {
            return Some(owned("--no-net closes the network; it cannot also grant --allow-net, --allow-bind or a proxy"));
        }
        if self.allowed_bind.len() > 0 && self.allowed_net.len() == 0 {
            return Some(owned(
                "--allow-bind only means something once --allow-net closes the network; with the network open every port can already be bound",
            ));
        }
        None
    }
}

/// The port a `--allow-bind` entry names: a TCP port above 0.
pub open spec fn bind_port(entry: Seq<char>) -> Option<u16> {
    match parse_u16(entry) {
        Some(p) => if p > 0 { Some(p) } else { None },
        None => None,
    }
}

/// The first `--allow-bind` entry that is not a port, from `k` on.
pub open spec fn bad_bind_from(entries: Seq<Seq<char>>, k: int) -> Option<int>
    decreases entries.len() - k,
{
    if k >= entries.len() || k < 0 {
        None
    } else if bind_port(entries[k]) is None {
        Some(k)
    } else {
        bad_bind_from(entries, k + 1)
    }
}

proof fn lemma_bad_bind_within(entries: Seq<Seq<char>>, k: int)
    requires
        0 <= k,
    ensures
        bad_bind_from(entries, k) is Some ==> k <= bad_bind_from(entries, k)->Some_0 < entries.len(),
    decreases entries.len() - k,
{
    if k < entries.len() && bind_port(entries[k]) is Some {
        lemma_bad_bind_within(entries, k + 1);
    }
}

/// The refusal of the first `--allow-bind` entry that is not a port.
pub open spec fn bind_problem(entries: Seq<Seq<char>>) -> Option<Seq<char>> {
    match bad_bind_from(entries, 0) {
        Some(k) => Some("--allow-bind takes a TCP port, not "@ + entries[k]),
        None => None,
    }
}

/// The bind ports a request names, or the refusal of the first entry that is
/// not a port.
pub fn bind_ports(entries: &[String]) -> (r: Result<Vec<u16>, String>)
    ensures
        match bad_bind_from(texts(entries@), 0) {
            Some(k) => r is Err && r->Err_0@ == "--allow-bind takes a TCP port, not "@ + entries@[k]@,
            None => r is Ok && r->Ok_0@.len() == entries@.len() && forall|i: int|
                0 <= i < entries@.len() ==> bind_port(entries@[i]@) == Some(#[trigger] r->Ok_0@[i]),
        },
{
    let mut ports: Vec<u16> = Vec::new();
    let mut i: usize = 0;
    while i < entries.len()
        invariant
            i <= entries@.len(),
            ports@.len() == i,
            forall|j: int| 0 <= j < i ==> bind_port(entries@[j]@) == Some(#[trigger] ports@[j]),
            bad_bind_from(texts(entries@), 0) == bad_bind_from(texts(entries@), i as int),
        decreases entries.len() - i,
    {
        let chars = chars_of(entries[i].as_str());
        assert(texts(entries@)[i as int] == entries@[i as int]@);
        match crate::text::parse_port(chars.as_slice()) {
            Some(port) => {
                if port > 0 {
                    ports.push(port);
                } else {
                    return Err(crate::text::concat("--allow-bind takes a TCP port, not ", entries[i].as_str()));
                }
            },
            None => {
                return Err(crate::text::concat("--allow-bind takes a TCP port, not ", entries[i].as_str()));
            },
        }
        i = i + 1;
    }
    Ok(ports)
}

/// `path` with a leading `~/` made the caller's home, when a home is known.
pub open spec fn expand_home(path: Seq<char>, home: Option<Seq<char>>) -> Seq<char> {
    match (strip_prefix(path, "~/"@), home) {
        (Some(rest), Some(h)) => h + "/"@ + rest,
        _ => path,
    }
}

/// `path` with a leading `~/` made the caller's home.
pub fn expand_home_in(path: &str, home: Option<&str>) -> (r: String)
    ensures
        r@ == expand_home(path@, crate::preset::opt_text(home)),
{
    let chars = chars_of(path);
    let prefix = chars_of("~/");
    match (strip_prefix_of(chars.as_slice(), prefix.as_slice()), home) {
        (Some(rest), Some(h)) => {
            let mut out = owned(h);
            push_char(&mut out, '/');
            push_str(&mut out, string_of(rest.as_slice()).as_str());
            proof { reveal_strlit("/"); }
            assert(out@ =~= h@ + "/"@ + rest@);
            out
        },
        _ => owned(path),
    }
}

/// The refusal of a run as root.
pub open spec fn root_refusal() -> Seq<char> {
    "refusing to run as root: file permissions are part of what keeps a confined command away from a secret, and for root they separate nothing — /etc must be readable for a command to start, and it holds shadow and host keys. Run as an ordinary user, or pass --allow-root if you have decided permissions are not part of the boundary you wanted."@
}

/// What the host said about a request before any policy is applied: the
/// closures resolved, whether porta runs as root, the home, the mounts
/// resolved, and the findings about the command, the ceilings and the memory
/// ceiling (each `None` when there is nothing to object to).
pub struct Probes {
    pub closures: Result<Closures, String>,
    pub running_as_root: bool,
    pub home: Option<String>,
    pub mounts: Result<Vec<String>, String>,
    pub missing_command: Option<String>,
    pub unreadable_command: Option<String>,
    pub unsettable_ceiling: Option<String>,
    pub memory_unavailable: Option<String>,
}

/// The read policies this build understands.
pub open spec fn known_read_policy(p: Seq<char>) -> bool {
    p == "open"@ || p == "strict"@
}

/// Why the memory ceiling cannot be honoured, if it cannot, on `platform`.
pub open spec fn memory_refusal(r: SandboxRequest, p: Probes, platform: Platform) -> Option<Seq<char>> {
    match platform {
        Platform::Linux => if r.max_memory_mb == 0 {
            None
        } else {
            match p.memory_unavailable {
                Some(reason) => Some("--max-memory-mb: "@ + reason@),
                None => None,
            }
        },
        Platform::MacOs => None,
        Platform::Other => if r.max_memory_mb > 0 {
            Some("--max-memory-mb has no enforcement on this platform"@)
        } else {
            None
        },
    }
}

/// The first reason the request is refused, in the order the checks run.
pub open spec fn first_refusal(r: SandboxRequest, p: Probes, platform: Platform) -> Option<Seq<char>> {
    if p.closures is Err {
        Some(p.closures->Err_0@)
    } else if !known_read_policy(r.read_policy@) {
        Some("unknown read policy: "@ + r.read_policy@ + "; use open or strict"@)
    } else if !r.allow_root && p.running_as_root {
        Some(root_refusal())
    } else if p.mounts is Err {
        Some(p.mounts->Err_0@)
    } else if p.missing_command is Some {
        Some(p.missing_command->Some_0@)
    } else if bad_bind_from(texts(r.allowed_bind@), 0) is Some {
        Some("--allow-bind takes a TCP port, not "@ + r.allowed_bind@[bad_bind_from(texts(r.allowed_bind@), 0)->Some_0]@)
    } else if network_contradiction(r) is Some {
        network_contradiction(r)
    } else if platform != Platform::Other && p.unreadable_command is Some {
        Some(p.unreadable_command->Some_0@)
    } else if p.unsettable_ceiling is Some {
        Some(p.unsettable_ceiling->Some_0@)
    } else {
        memory_refusal(r, p, platform)
    }
}

/// Every request the run accepts meets every check at once: the preset's
/// closures resolved, a read policy this build knows, not root unless
/// allowed, its mounts resolved, its command found, every `--allow-bind` a
/// TCP port, no contradicting network flags, its command readable where that
/// is checked, and every ceiling one the host can set. The request
/// `settle` gives back (`s`, with the fields `settle` keeps) passes the
/// checks on its own fields again, with the resolved closures and mounts.
pub proof fn law_an_accepted_request_meets_every_check(r: SandboxRequest, p: Probes, platform: Platform, s: SandboxRequest)
    requires
        first_refusal(r, p, platform) is None,
        s.closures == p.closures->Ok_0,
        s.allowed_dirs == p.mounts->Ok_0,
        s.read_policy == r.read_policy,
        s.allowed_bind == r.allowed_bind,
        s.allowed_net == r.allowed_net,
        s.proxy == r.proxy,
        s.no_network == r.no_network,
    ensures
        p.closures is Ok && p.mounts is Ok,
        known_read_policy(r.read_policy@) && known_read_policy(s.read_policy@),
        r.allow_root || !p.running_as_root,
        p.missing_command is None,
        bad_bind_from(texts(s.allowed_bind@), 0) is None,
        network_contradiction(s) is None,
        platform != Platform::Other ==> p.unreadable_command is None,
        p.unsettable_ceiling is None,
        memory_refusal(r, p, platform) is None,
{
}

impl SandboxRequest {
    /// The request as the run will use it, after the checks that refuse it
    /// before any policy is applied: its closures resolved, its directory
    /// with `~/` expanded, its mounts resolved; or the first refusal.
    pub fn settle(self, probes: Probes, platform: Platform) -> (r: Result<SandboxRequest, String>)
        ensures
            match first_refusal(self, probes, platform) {
                Some(reason) => r is Err && r->Err_0@ == reason,
                None => r is Ok && {
                    let s = r->Ok_0;
                    &&& s.closures == probes.closures->Ok_0
                    &&& s.allowed_dirs == probes.mounts->Ok_0
                    &&& s.cwd@ == expand_home(self.cwd@, match probes.home {
                        Some(h) => Some(h@),
                        None => None,
                    })
                    &&& s.cmd == self.cmd && s.args == self.args && s.allowed_net == self.allowed_net
                    &&& s.read_policy == self.read_policy && s.proxy == self.proxy && s.no_network == self.no_network
                    &&& s.allowed_bind == self.allowed_bind && s.allowed_unix == self.allowed_unix
                    &&& s.env_vars == self.env_vars && s.preset == self.preset && s.timeout == self.timeout
                    &&& s.max_cpu == self.max_cpu && s.max_procs == self.max_procs
                    &&& s.max_file_size == self.max_file_size && s.max_memory_mb == self.max_memory_mb
                    &&& s.why == self.why && s.snapshot == self.snapshot && s.tag == self.tag && s.raw == self.raw
                },
            },
    {
        let mut request = self;
        let Probes {
            closures,
            running_as_root,
            home,
            mounts,
            missing_command,
            unreadable_command,
            unsettable_ceiling,
            memory_unavailable,
        } = probes;
        match closures {
            Err(reason) => return Err(reason),
            Ok(c) => request.closures = c,
        }
        if !(same_text(request.read_policy.as_str(), "open") || same_text(request.read_policy.as_str(), "strict")) {
            let mut message = owned("unknown read policy: ");
            push_str(&mut message, request.read_policy.as_str());
            push_str(&mut message, "; use open or strict");
            return Err(message);
        }
        if !request.allow_root && running_as_root {
            return Err(owned(
                "refusing to run as root: file permissions are part of what keeps a confined command away from a secret, and for root they separate nothing — /etc must be readable for a command to start, and it holds shadow and host keys. Run as an ordinary user, or pass --allow-root if you have decided permissions are not part of the boundary you wanted.",
            ));
        }
        let expanded = match &home {
            Some(h) => expand_home_in(request.cwd.as_str(), Some(h.as_str())),
            None => expand_home_in(request.cwd.as_str(), None),
        };
        request.cwd = expanded;
        match mounts {
            Err(reason) => return Err(reason),
            Ok(dirs) => request.allowed_dirs = dirs,
        }
        if let Some(reason) = missing_command {
            return Err(reason);
        }
        match bind_ports(request.allowed_bind.as_slice()) {
            Err(reason) => return Err(reason),
            Ok(_) => {},
        }
        if let Some(reason) = request.contradictory_network() {
            return Err(reason);
        }
        if platform != Platform::Other {
            if let Some(reason) = unreadable_command {
                return Err(reason);
            }
        }
        if let Some(reason) = unsettable_ceiling {
            return Err(reason);
        }
        match platform {
            Platform::Linux => {
                if request.max_memory_mb > 0 {
                    if let Some(reason) = memory_unavailable {
                        let mut message = owned("--max-memory-mb: ");
                        push_str(&mut message, reason.as_str());
                        return Err(message);
                    }
                }
            },
            Platform::MacOs => {},
            Platform::Other => {
                if request.max_memory_mb > 0 {
                    return Err(owned("--max-memory-mb has no enforcement on this platform"));
                }
            },
        }
        Ok(request)
    }
}

// ---------------------------------------------------------------------------
// What a request would do, in words
// ---------------------------------------------------------------------------

/// The ceilings that are set, in words.
pub open spec fn ceiling_parts(r: SandboxRequest, platform: Platform) -> Seq<Seq<char>> {
    let cpu = if r.max_cpu > 0 { seq![decimal(r.max_cpu as nat) + "s CPU per process"@] } else { Seq::empty() };
    let procs = if r.max_procs > 0 {
        seq![decimal(r.max_procs as nat) + " processes for this user"@]
    } else {
        Seq::empty()
    };
    let files = if r.max_file_size > 0 {
        seq!["files up to "@ + decimal(r.max_file_size as nat) + " MiB"@]
    } else {
        Seq::empty()
    };
    let how = if platform == Platform::Linux {
        "cgroup, swap closed"@
    } else {
        "the group is ended when its footprint reaches it"@
    };
    let memory = if r.max_memory_mb > 0 {
        seq![decimal(r.max_memory_mb as nat) + " MiB resident memory for the whole run ("@ + how + ")"@]
    } else {
        Seq::empty()
    };
    cpu + procs + files + memory
}

/// The ceilings in words, for `explain`.
pub open spec fn ceilings_text(r: SandboxRequest, platform: Platform) -> Seq<char> {
    let parts = ceiling_parts(r, platform);
    if parts.len() == 0 { "none"@ } else { join(parts, ", "@) }
}

/// `none` for an empty list, the list joined with `sep` otherwise.
pub open spec fn listed(items: Seq<Seq<char>>, sep: Seq<char>) -> Seq<char> {
    if items.len() == 0 { "none"@ } else { join(items, sep) }
}

/// What the preset and the caller close, in words; on Linux, the sockets
/// bound now that they close (`bound`).
pub open spec fn closures_text(r: SandboxRequest, platform: Platform, bound: Seq<Seq<char>>) -> Seq<char> {
    let preset = if r.preset@.len() == 0 { "default"@ } else { r.preset@ };
    "preset       "@ + preset + " (--preset none drops it; --deny-read, --protect, --deny-unix add)\n"@
        + "closed reads "@ + listed(texts(r.closures.deny_read@), "\n             "@) + "\n"@
        + "protected    "@ + listed(texts(r.closures.protect@), ", "@) + "\n"@
        + "closed unix  "@ + listed(texts(r.closures.deny_unix@), "  "@) + "\n"@
        + if platform == Platform::Linux {
            "  bound now  "@ + join(bound, "\n             "@) + "\n"@
        } else {
            Seq::empty()
        }
}

/// The network policy in words.
pub open spec fn network_words(r: SandboxRequest) -> Seq<char> {
    if r.no_network {
        "none"@
    } else if r.proxy {
        "the loopback proxy only"@
    } else if r.allowed_net@.len() == 0 {
        "open"@
    } else {
        "TCP to "@ + join(texts(r.allowed_net@), ", "@)
    }
}

/// The names of the `-e` variables.
pub open spec fn env_names(vars: Seq<(String, String)>) -> Seq<Seq<char>> {
    vars.map_values(|v: (String, String)| v.0@)
}

/// The first lines of `explain`: command, directory, mounts, reads and
/// network.
pub open spec fn explain_head(r: SandboxRequest) -> Seq<char> {
    "command      "@ + r.cmd@ + " "@ + join(texts(r.args@), " "@) + "\n"@
        + "working dir  "@ + (if r.cwd@.len() == 0 { "."@ } else { r.cwd@ }) + "\n"@
        + "mounts       "@ + listed(texts(r.allowed_dirs@), ", "@) + "\n"@
        + "reads        "@ + (if r.read_policy@ == "strict"@ {
            "mounts and the platform's own directories only"@
        } else {
            "open, minus credential stores"@
        }) + "\n"@
        + "network      "@ + network_words(r) + "\n"@
}

/// The lines `explain` writes only when there is something to list: the
/// ports to listen on and the sockets granted.
pub open spec fn explain_grants(r: SandboxRequest) -> Seq<char> {
    (if r.allowed_bind@.len() > 0 { "listen on    "@ + join(texts(r.allowed_bind@), ", "@) + "\n"@ } else { Seq::empty() })
        + (if r.allowed_unix@.len() > 0 { "unix sockets "@ + join(texts(r.allowed_unix@), ", "@) + "\n"@ } else { Seq::empty() })
}

/// The last lines of `explain`: time limit, ceilings and environment.
pub open spec fn explain_tail(r: SandboxRequest, platform: Platform, inherited: Seq<Seq<char>>) -> Seq<char> {
    "time limit   "@ + (if r.timeout == 0 {
        "none"@
    } else {
        decimal(r.timeout as nat) + "s, then killed with its process group"@
    }) + "\n"@
        + "resources    "@ + ceilings_text(r, platform) + "\n"@
        + "environment  "@ + join(inherited + env_names(r.env_vars@), " "@) + "\n"@
}

/// The policy in words, for `porta explain`. `inherited` are the host
/// variables the child keeps that are set, `bound` the credential sockets
/// bound now, and `enforcement` what the platform's enforcement says.
pub open spec fn explain_text(
    r: SandboxRequest,
    platform: Platform,
    inherited: Seq<Seq<char>>,
    bound: Seq<Seq<char>>,
    enforcement: Seq<char>,
) -> Seq<char> {
    explain_head(r) + explain_grants(r) + closures_text(r, platform, bound) + explain_tail(r, platform, inherited)
        + enforcement
}

/// `items` joined with `sep`, or `none` when there are none.
fn listed_text(items: &Vec<String>, sep: &str) -> (r: String)
    ensures
        r@ == listed(texts(items@), sep@),
{
    if items.len() == 0 {
        owned("none")
    } else {
        join_texts(items.as_slice(), sep)
    }
}

impl SandboxRequest {
    /// The ceilings in words, for `explain`.
    pub fn explain_ceilings(&self, platform: Platform) -> (r: String)
        ensures
            r@ == ceilings_text(*self, platform),
    {
        let mut parts: Vec<String> = Vec::new();
        if self.max_cpu > 0 {
            let mut part = crate::text::decimal_text(self.max_cpu);
            push_str(&mut part, "s CPU per process");
            parts.push(part);
        }
        let ghost a = texts(parts@);
        if self.max_procs > 0 {
            let mut part = crate::text::decimal_text(self.max_procs);
            push_str(&mut part, " processes for this user");
            parts.push(part);
        }
        let ghost b = texts(parts@);
        if self.max_file_size > 0 {
            let mut part = owned("files up to ");
            push_decimal(&mut part, self.max_file_size);
            push_str(&mut part, " MiB");
            parts.push(part);
        }
        let ghost c = texts(parts@);
        if self.max_memory_mb > 0 {
            let mut part = crate::text::decimal_text(self.max_memory_mb);
            push_str(&mut part, " MiB resident memory for the whole run (");
            if platform == Platform::Linux {
                push_str(&mut part, "cgroup, swap closed");
            } else {
                push_str(&mut part, "the group is ended when its footprint reaches it");
            }
            push_str(&mut part, ")");
            parts.push(part);
        }
        assert(texts(parts@) =~= ceiling_parts(*self, platform));
        if parts.len() == 0 {
            owned("none")
        } else {
            join_texts(parts.as_slice(), ", ")
        }
    }

    /// What the preset and the caller close, in words (`bound`: on Linux,
    /// the credential sockets bound now that they close).
    pub fn explain_closures(&self, platform: Platform, bound: &Vec<String>) -> (r: String)
        ensures
            r@ == closures_text(*self, platform, texts(bound@)),
    {
        let mut text = owned("preset       ");
        if self.preset.unicode_len() == 0 {
            push_str(&mut text, "default");
        } else {
            push_str(&mut text, self.preset.as_str());
        }
        push_str(&mut text, " (--preset none drops it; --deny-read, --protect, --deny-unix add)\n");
        push_str(&mut text, "closed reads ");
        push_str(&mut text, listed_text(&self.closures.deny_read, "\n             ").as_str());
        push_str(&mut text, "\n");
        push_str(&mut text, "protected    ");
        push_str(&mut text, listed_text(&self.closures.protect, ", ").as_str());
        push_str(&mut text, "\n");
        push_str(&mut text, "closed unix  ");
        push_str(&mut text, listed_text(&self.closures.deny_unix, "  ").as_str());
        push_str(&mut text, "\n");
        if platform == Platform::Linux {
            push_str(&mut text, "  bound now  ");
            push_str(&mut text, join_texts(bound.as_slice(), "\n             ").as_str());
            push_str(&mut text, "\n");
        }
        assert(text@ =~= closures_text(*self, platform, texts(bound@)));
        text
    }

    fn network_line(&self) -> (r: String)
        ensures
            r@ == network_words(*self),
    {
        if self.no_network {
            owned("none")
        } else if self.proxy {
            owned("the loopback proxy only")
        } else if self.allowed_net.len() == 0 {
            owned("open")
        } else {
            let mut t = owned("TCP to ");
            push_str(&mut t, join_texts(self.allowed_net.as_slice(), ", ").as_str());
            t
        }
    }

    fn environment_names(&self, inherited: &Vec<String>) -> (r: Vec<String>)
        ensures
            texts(r@) == texts(inherited@) + env_names(self.env_vars@),
    {
        let mut names: Vec<String> = Vec::new();
        let mut i: usize = 0;
        while i < inherited.len()
            invariant
                i <= inherited@.len(),
                texts(names@) == texts(inherited@.take(i as int)),
            decreases inherited.len() - i,
        {
            let ghost before = names@;
            let item = owned(inherited[i].as_str());
            names.push(item);
            assert(texts(names@) =~= texts(before).push(inherited@[i as int]@));
            assert(inherited@.take(i + 1) =~= inherited@.take(i as int).push(inherited@[i as int]));
            assert(texts(inherited@.take(i + 1)) =~= texts(inherited@.take(i as int)).push(inherited@[i as int]@));
            i = i + 1;
        }
        assert(inherited@.take(inherited@.len() as int) =~= inherited@);
        let mut j: usize = 0;
        while j < self.env_vars.len()
            invariant
                j <= self.env_vars@.len(),
                texts(names@) == texts(inherited@) + env_names(self.env_vars@.take(j as int)),
            decreases self.env_vars.len() - j,
        {
            let ghost before = names@;
            let item = owned(self.env_vars[j].0.as_str());
            names.push(item);
            assert(texts(names@) =~= texts(before).push(self.env_vars@[j as int].0@));
            assert(self.env_vars@.take(j + 1) =~= self.env_vars@.take(j as int).push(self.env_vars@[j as int]));
            assert(env_names(self.env_vars@.take(j + 1)) =~= env_names(self.env_vars@.take(j as int)).push(self.env_vars@[j as int].0@));
            assert(texts(names@) =~= texts(inherited@) + env_names(self.env_vars@.take(j + 1)));
            j = j + 1;
        }
        assert(self.env_vars@.take(self.env_vars@.len() as int) =~= self.env_vars@);
        names
    }

    fn head_lines(&self) -> (r: String)
        ensures
            r@ == explain_head(*self),
    {
        let mut text = owned("command      ");
        push_str(&mut text, self.cmd.as_str());
        push_str(&mut text, " ");
        push_str(&mut text, join_texts(self.args.as_slice(), " ").as_str());
        push_str(&mut text, "\n");
        push_str(&mut text, "working dir  ");
        if self.cwd.unicode_len() == 0 {
            push_str(&mut text, ".");
        } else {
            push_str(&mut text, self.cwd.as_str());
        }
        push_str(&mut text, "\n");
        push_str(&mut text, "mounts       ");
        push_str(&mut text, listed_text(&self.allowed_dirs, ", ").as_str());
        push_str(&mut text, "\n");
        push_str(&mut text, "reads        ");
        if same_text(self.read_policy.as_str(), "strict") {
            push_str(&mut text, "mounts and the platform's own directories only");
        } else {
            push_str(&mut text, "open, minus credential stores");
        }
        push_str(&mut text, "\n");
        push_str(&mut text, "network      ");
        push_str(&mut text, self.network_line().as_str());
        push_str(&mut text, "\n");
        assert(text@ =~= explain_head(*self));
        text
    }

    fn grant_lines(&self) -> (r: String)
        ensures
            r@ == explain_grants(*self),
    {
        let mut text = String::new();
        if self.allowed_bind.len() > 0 {
            push_str(&mut text, "listen on    ");
            push_str(&mut text, join_texts(self.allowed_bind.as_slice(), ", ").as_str());
            push_str(&mut text, "\n");
        }
        let ghost first = text@;
        if self.allowed_unix.len() > 0 {
            push_str(&mut text, "unix sockets ");
            push_str(&mut text, join_texts(self.allowed_unix.as_slice(), ", ").as_str());
            push_str(&mut text, "\n");
        }
        assert(text@ =~= explain_grants(*self));
        text
    }

    fn tail_lines(&self, platform: Platform, inherited: &Vec<String>) -> (r: String)
        ensures
            r@ == explain_tail(*self, platform, texts(inherited@)),
    {
        let mut text = owned("time limit   ");
        if self.timeout == 0 {
            push_str(&mut text, "none");
        } else {
            push_decimal(&mut text, self.timeout);
            push_str(&mut text, "s, then killed with its process group");
        }
        push_str(&mut text, "\n");
        push_str(&mut text, "resources    ");
        push_str(&mut text, self.explain_ceilings(platform).as_str());
        push_str(&mut text, "\n");
        push_str(&mut text, "environment  ");
        let names = self.environment_names(inherited);
        push_str(&mut text, join_texts(names.as_slice(), " ").as_str());
        push_str(&mut text, "\n");
        assert(text@ =~= explain_tail(*self, platform, texts(inherited@)));
        text
    }

    /// The policy in words, for `porta explain`: what the kernel will be
    /// told, and what the child will see. Nothing runs. `inherited` are the
    /// host variables the child keeps that are set here, `bound` the
    /// credential sockets bound now, `enforcement` what the platform's
    /// enforcement says of this request.
    pub fn explain(&self, platform: Platform, inherited: &Vec<String>, bound: &Vec<String>, enforcement: &str) -> (r: String)
        ensures
            r@ == explain_text(*self, platform, texts(inherited@), texts(bound@), enforcement@),
    {
        let mut text = self.head_lines();
        push_str(&mut text, self.grant_lines().as_str());
        push_str(&mut text, self.explain_closures(platform, bound).as_str());
        push_str(&mut text, self.tail_lines(platform, inherited).as_str());
        push_str(&mut text, enforcement);
        text
    }
}

// ---------------------------------------------------------------------------
// The same policy as JSON
// ---------------------------------------------------------------------------

/// The enforcement backend's name on `platform`.
pub open spec fn backend_name(platform: Platform) -> Seq<char> {
    match platform {
        Platform::Linux => "landlock+seccomp"@,
        Platform::MacOs => "sandbox-exec"@,
        Platform::Other => "none"@,
    }
}

/// The enforcement backend's name on `platform`.
pub fn enforcement_backend(platform: Platform) -> (r: &'static str)
    ensures
        r@ == backend_name(platform),
{
    match platform {
        Platform::Linux => "landlock+seccomp",
        Platform::MacOs => "sandbox-exec",
        Platform::Other => "none",
    }
}

/// The network mode and the hosts it allows, for the JSON form.
pub open spec fn network_mode(r: SandboxRequest) -> (Seq<char>, Seq<Seq<char>>) {
    if r.no_network {
        ("none"@, Seq::empty())
    } else if r.proxy {
        ("proxy"@, Seq::empty())
    } else if r.allowed_net@.len() == 0 {
        ("open"@, Seq::empty())
    } else {
        ("allowlist"@, texts(r.allowed_net@))
    }
}

/// The first half of the JSON form: command through network.
pub open spec fn json_head(r: SandboxRequest) -> Seq<char> {
    "{\"command\":"@ + json_quoted(r.cmd@) + ",\"args\":"@ + json_array(texts(r.args@)) + ",\"working_dir\":"@
        + json_quoted(if r.cwd@.len() == 0 { "."@ } else { r.cwd@ }) + ",\"mounts\":"@ + json_array(texts(r.allowed_dirs@))
        + ",\"reads\":"@ + json_quoted(if r.read_policy@ == "strict"@ { "strict"@ } else { "open"@ })
        + ",\"network\":{\"mode\":"@ + json_quoted(network_mode(r).0) + ",\"allow\":"@ + json_array(network_mode(r).1)
        + "},\"listen\":"@ + json_array(texts(r.allowed_bind@)) + ",\"unix_sockets\":"@ + json_array(texts(r.allowed_unix@))
}

/// The second half of the JSON form: limits, closures, enforcement.
pub open spec fn json_tail(r: SandboxRequest, backend: Seq<char>) -> Seq<char> {
    ",\"timeout_seconds\":"@ + decimal(r.timeout as nat) + ",\"limits\":{\"cpu_seconds\":"@ + decimal(r.max_cpu as nat)
        + ",\"processes\":"@ + decimal(r.max_procs as nat) + ",\"file_size_mib\":"@ + decimal(r.max_file_size as nat)
        + ",\"memory_mib\":"@ + decimal(r.max_memory_mb as nat) + "},\"preset\":"@
        + json_quoted(if r.preset@.len() == 0 { "default"@ } else { r.preset@ }) + ",\"closed\":{\"read\":"@
        + json_array(texts(r.closures.deny_read@)) + ",\"protect\":"@ + json_array(texts(r.closures.protect@))
        + ",\"unix\":"@ + json_array(texts(r.closures.deny_unix@)) + "},\"enforcement\":"@ + json_quoted(backend) + "}"@
}

/// The policy as one JSON object.
pub open spec fn explain_json_text(r: SandboxRequest, backend: Seq<char>) -> Seq<char> {
    json_head(r) + json_tail(r, backend)
}

impl SandboxRequest {
    fn json_head_text(&self) -> (r: String)
        ensures
            r@ == json_head(*self),
    {
        let mut t = owned("{\"command\":");
        push_json_quoted(&mut t, self.cmd.as_str());
        push_str(&mut t, ",\"args\":");
        push_json_array(&mut t, self.args.as_slice());
        push_str(&mut t, ",\"working_dir\":");
        if self.cwd.unicode_len() == 0 {
            push_json_quoted(&mut t, ".");
        } else {
            push_json_quoted(&mut t, self.cwd.as_str());
        }
        push_str(&mut t, ",\"mounts\":");
        push_json_array(&mut t, self.allowed_dirs.as_slice());
        push_str(&mut t, ",\"reads\":");
        if same_text(self.read_policy.as_str(), "strict") {
            push_json_quoted(&mut t, "strict");
        } else {
            push_json_quoted(&mut t, "open");
        }
        push_str(&mut t, ",\"network\":{\"mode\":");
        let ghost mid = t@;
        let none: Vec<String> = Vec::new();
        assert(texts(none@) =~= Seq::<Seq<char>>::empty());
        if self.no_network {
            push_json_quoted(&mut t, "none");
            push_str(&mut t, ",\"allow\":");
            push_json_array(&mut t, none.as_slice());
        } else if self.proxy {
            push_json_quoted(&mut t, "proxy");
            push_str(&mut t, ",\"allow\":");
            push_json_array(&mut t, none.as_slice());
        } else if self.allowed_net.len() == 0 {
            push_json_quoted(&mut t, "open");
            push_str(&mut t, ",\"allow\":");
            push_json_array(&mut t, none.as_slice());
        } else {
            push_json_quoted(&mut t, "allowlist");
            push_str(&mut t, ",\"allow\":");
            push_json_array(&mut t, self.allowed_net.as_slice());
        }
        push_str(&mut t, "},\"listen\":");
        push_json_array(&mut t, self.allowed_bind.as_slice());
        push_str(&mut t, ",\"unix_sockets\":");
        push_json_array(&mut t, self.allowed_unix.as_slice());
        assert(t@ =~= json_head(*self));
        t
    }

    fn json_tail_text(&self, backend: &str) -> (r: String)
        ensures
            r@ == json_tail(*self, backend@),
    {
        let mut t = owned(",\"timeout_seconds\":");
        push_decimal(&mut t, self.timeout);
        push_str(&mut t, ",\"limits\":{\"cpu_seconds\":");
        push_decimal(&mut t, self.max_cpu);
        push_str(&mut t, ",\"processes\":");
        push_decimal(&mut t, self.max_procs);
        push_str(&mut t, ",\"file_size_mib\":");
        push_decimal(&mut t, self.max_file_size);
        push_str(&mut t, ",\"memory_mib\":");
        push_decimal(&mut t, self.max_memory_mb);
        push_str(&mut t, "},\"preset\":");
        if self.preset.unicode_len() == 0 {
            push_json_quoted(&mut t, "default");
        } else {
            push_json_quoted(&mut t, self.preset.as_str());
        }
        push_str(&mut t, ",\"closed\":{\"read\":");
        push_json_array(&mut t, self.closures.deny_read.as_slice());
        push_str(&mut t, ",\"protect\":");
        push_json_array(&mut t, self.closures.protect.as_slice());
        push_str(&mut t, ",\"unix\":");
        push_json_array(&mut t, self.closures.deny_unix.as_slice());
        push_str(&mut t, "},\"enforcement\":");
        push_json_quoted(&mut t, backend);
        push_str(&mut t, "}");
        assert(t@ =~= json_tail(*self, backend@));
        t
    }

    /// The same policy as `explain`, as one JSON object for tooling, with
    /// the name of the enforcement backend.
    pub fn explain_json(&self, backend: &str) -> (r: String)
        ensures
            r@ == explain_json_text(*self, backend@),
    {
        let mut t = self.json_head_text();
        push_str(&mut t, self.json_tail_text(backend).as_str());
        t
    }

    /// Which seccomp program the request needs beside Landlock, given
    /// whether the host gives the command namespaces of its own (without
    /// one, no network is the proxy program with no port open).
    pub fn egress(&self, namespaces: bool) -> (r: Egress)
        ensures
            r == (if self.proxy || (self.no_network && !namespaces) {
                Egress::ProxyOnly
            } else if self.allowed_net@.len() > 0 {
                Egress::TcpPorts
            } else {
                Egress::Open
            }),
    {
        let isolated = self.no_network && namespaces;
        if self.proxy || (self.no_network && !isolated) {
            Egress::ProxyOnly
        } else if self.allowed_net.len() > 0 {
            Egress::TcpPorts
        } else {
            Egress::Open
        }
    }
}

// ---------------------------------------------------------------------------
// What the Linux enforcement is given
// ---------------------------------------------------------------------------

/// The ports a request may connect to: those `--allow-net` names, plus TCP
/// 53 once UDP is closed, so names resolve over TCP.
pub open spec fn connect_list(r: SandboxRequest, namespaces: bool) -> Seq<Seq<char>> {
    if !(r.proxy || (r.no_network && !namespaces)) && r.allowed_net@.len() > 0 {
        texts(r.allowed_net@).push("*:53"@)
    } else {
        texts(r.allowed_net@)
    }
}

/// Why a Linux host cannot run a request, before any ruleset is built:
/// `--no-net` without a namespace of its own needs Landlock ABI 4, and the
/// syscalls Landlock cannot see need seccomp.
pub open spec fn linux_refusal(r: SandboxRequest, abi: i64, namespaces: Result<(), String>, seccomp: bool) -> Option<Seq<char>> {
    if r.no_network && namespaces is Err && abi < 4 {
        Some("--no-net needs a network namespace or Landlock ABI 4, and this host gives neither ("@ + namespaces->Err_0@
            + "; Landlock ABI "@ + crate::text::signed_decimal(abi as int)
            + "); porta will not run the command with the network open"@)
    } else if !seccomp {
        Some("this kernel will not accept a seccomp filter, and porta closes the syscalls Landlock cannot see with one; porta will not run the command with the rest of the policy applied"@)
    } else {
        None
    }
}

impl SandboxRequest {
    /// Whether this run's network is a namespace of its own.
    pub fn network_isolated(&self, namespaces: bool) -> (r: bool)
        ensures
            r == (self.no_network && namespaces),
    {
        self.no_network && namespaces
    }

    /// The ports `--allow-net` names, plus TCP 53 once UDP is closed (the
    /// resolver is then told to ask over TCP).
    pub fn connect_ports(&self, namespaces: bool) -> (r: Vec<String>)
        ensures
            texts(r@) == connect_list(*self, namespaces),
    {
        let mut ports: Vec<String> = Vec::new();
        let mut i: usize = 0;
        while i < self.allowed_net.len()
            invariant
                i <= self.allowed_net@.len(),
                texts(ports@) == texts(self.allowed_net@).take(i as int),
            decreases self.allowed_net.len() - i,
        {
            let ghost before = texts(ports@);
            ports.push(owned(self.allowed_net[i].as_str()));
            assert(texts(ports@) =~= before.push(self.allowed_net@[i as int]@));
            assert(texts(self.allowed_net@).take(i + 1) =~= texts(self.allowed_net@).take(i as int).push(
                self.allowed_net@[i as int]@,
            ));
            i = i + 1;
        }
        assert(texts(self.allowed_net@).take(self.allowed_net@.len() as int) =~= texts(self.allowed_net@));
        if self.egress(namespaces) == Egress::TcpPorts {
            let ghost before = texts(ports@);
            ports.push(owned("*:53"));
            assert(texts(ports@) =~= before.push("*:53"@));
        }
        ports
    }

    /// The Landlock policy a Linux host applies to this request, given its
    /// Landlock ABI, whether it gives the command namespaces of its own (or
    /// why not), and whether it accepts a seccomp filter; or why it cannot
    /// run the request. Under `--no-net` without a namespace every TCP port
    /// is closed; with a mount namespace the closed paths are covered there
    /// rather than left out of the reads.
    pub fn ruleset(&self, abi: i64, namespaces: &Result<(), String>, seccomp: bool) -> (r: Result<crate::landlock_policy::Policy, String>)
        ensures
            linux_refusal(*self, abi, *namespaces, seccomp) is Some ==> r is Err && r->Err_0@ == linux_refusal(
                *self,
                abi,
                *namespaces,
                seccomp,
            )->Some_0,
            linux_refusal(*self, abi, *namespaces, seccomp) is None && bind_problem(texts(self.allowed_bind@)) is Some ==> r is Err
                && r->Err_0@ == bind_problem(texts(self.allowed_bind@))->Some_0,
            linux_refusal(*self, abi, *namespaces, seccomp) is None && bind_problem(texts(self.allowed_bind@)) is None ==> match crate::landlock_policy::ports_of(
                connect_list(*self, namespaces is Ok),
            ) {
                Err(e) => r is Err && r->Err_0@ == e,
                Ok(ports) => r is Ok && r->Ok_0.tcp_ports@ == ports && r->Ok_0.bind_ports@.len() == self.allowed_bind@.len()
                    && (forall|i: int| 0 <= i < self.allowed_bind@.len() ==> bind_port(self.allowed_bind@[i]@) == Some(
                    #[trigger] r->Ok_0.bind_ports@[i],
                )) && r->Ok_0.restrict_network == (
                connect_list(*self, namespaces is Ok).len() > 0 || (self.no_network && namespaces is Err)) && r->Ok_0.restrict_reads == (
                self.read_policy@ == "strict"@) && (self.read_policy@ != "strict"@ ==> texts(r->Ok_0.open_reads_except@) == (if namespaces is Ok {
                    Seq::empty()
                } else {
                    texts(self.closures.deny_read@)
                })),
            },
    {
        let isolated = match namespaces {
            Ok(()) => true,
            Err(_) => false,
        };
        if self.no_network && !isolated && abi < 4 {
            let mut t = owned("--no-net needs a network namespace or Landlock ABI 4, and this host gives neither (");
            match namespaces {
                Err(reason) => push_str(&mut t, reason.as_str()),
                Ok(()) => {},
            }
            push_str(&mut t, "; Landlock ABI ");
            crate::text::push_signed_decimal(&mut t, abi);
            push_str(&mut t, "); porta will not run the command with the network open");
            return Err(t);
        }
        if !seccomp {
            return Err(owned(
                "this kernel will not accept a seccomp filter, and porta closes the syscalls Landlock cannot see with one; porta will not run the command with the rest of the policy applied",
            ));
        }
        let connect = self.connect_ports(isolated);
        let binds = match bind_ports(self.allowed_bind.as_slice()) {
            Ok(b) => b,
            Err(e) => {
                proof {
                    lemma_bad_bind_within(texts(self.allowed_bind@), 0);
                    let k = bad_bind_from(texts(self.allowed_bind@), 0)->Some_0;
                    assert(texts(self.allowed_bind@)[k] == self.allowed_bind@[k]@);
                }
                return Err(e);
            },
        };
        let empty: Vec<String> = Vec::new();
        let closed: &Vec<String> = if isolated { &empty } else { &self.closures.deny_read };
        let mut policy = match crate::landlock_policy::policy(
            self.allowed_dirs.as_slice(),
            connect.as_slice(),
            binds.as_slice(),
            self.read_policy.as_str(),
            closed.as_slice(),
        ) {
            Ok(p) => p,
            Err(e) => return Err(e),
        };
        if self.no_network && !isolated {
            policy.restrict_network = true;
        }
        assert(texts(empty@) =~= Seq::<Seq<char>>::empty());
        Ok(policy)
    }
}

// ---------------------------------------------------------------------------
// What the macOS enforcement is given
// ---------------------------------------------------------------------------

/// A copy of a list of strings.
pub fn copy_strings(v: &Vec<String>) -> (r: Vec<String>)
    ensures
        r@ == v@,
{
    let mut r: Vec<String> = Vec::new();
    let mut i: usize = 0;
    while i < v.len()
        invariant
            i <= v@.len(),
            r@ == v@.take(i as int),
        decreases v.len() - i,
    {
        r.push(v[i].clone());
        assert(r@ =~= v@.take(i + 1));
        i = i + 1;
    }
    assert(v@.take(v@.len() as int) =~= v@);
    r
}

/// Two sets of closures that close the same things.
pub open spec fn same_closures(a: Closures, b: Closures) -> bool {
    a.deny_read@ == b.deny_read@ && a.protect@ == b.protect@ && a.deny_unix@ == b.deny_unix@ && a.repository@
        == b.repository@
}

/// A copy of what a run closes.
pub fn copy_closures(c: &Closures) -> (r: Closures)
    ensures
        same_closures(r, *c),
{
    Closures {
        deny_read: copy_strings(&c.deny_read),
        protect: copy_strings(&c.protect),
        deny_unix: copy_strings(&c.deny_unix),
        repository: copy_strings(&c.repository),
    }
}

/// The profile request a sandboxed request makes, given each mount's
/// repository and each reopened socket as the kernel resolves it: the
/// request's own mounts, ports, read policy, proxy and network choice,
/// bind ports (none where they do not parse), sockets, closures and tag.
pub open spec fn profile_request_of(q: crate::sandbox_profile::ProfileRequest, r: SandboxRequest, repositories: Seq<Option<String>>, resolved: Seq<Option<String>>) -> bool {
    &&& q.allowed_dirs@ == r.allowed_dirs@
    &&& q.repositories@ == repositories
    &&& q.allowed_net@ == r.allowed_net@
    &&& q.read_policy@ == r.read_policy@
    &&& q.proxy == r.proxy
    &&& q.no_network == r.no_network
    &&& (bind_problem(texts(r.allowed_bind@)) is None ==> q.bind_ports@.len() == r.allowed_bind@.len() && forall|i: int|
        0 <= i < r.allowed_bind@.len() ==> bind_port(r.allowed_bind@[i]@) == Some(#[trigger] q.bind_ports@[i]))
    &&& (bind_problem(texts(r.allowed_bind@)) is Some ==> q.bind_ports@.len() == 0)
    &&& q.allowed_unix@ == r.allowed_unix@
    &&& q.resolved_unix@ == resolved
    &&& same_closures(q.closures, r.closures)
    &&& q.tag@ == r.tag@
}

impl SandboxRequest {
    /// The profile this request asks for on macOS, given each mount's
    /// repository and each `--allow-unix` path as the kernel resolves it.
    /// Every macOS way of running a request builds it here.
    pub fn profile(&self, repositories: Vec<Option<String>>, resolved_unix: Vec<Option<String>>) -> (r: String)
        requires
            repositories@.len() == self.allowed_dirs@.len(),
            resolved_unix@.len() == self.allowed_unix@.len(),
        ensures
            exists|q: crate::sandbox_profile::ProfileRequest| profile_request_of(q, *self, repositories@, resolved_unix@)
                && r@ == crate::sandbox_profile::profile_text(q),
    {
        let ghost repos = repositories@;
        let ghost resolved = resolved_unix@;
        let binds = match bind_ports(self.allowed_bind.as_slice()) {
            Ok(b) => b,
            Err(_) => Vec::new(),
        };
        let q = crate::sandbox_profile::ProfileRequest {
            allowed_dirs: copy_strings(&self.allowed_dirs),
            repositories,
            allowed_net: copy_strings(&self.allowed_net),
            read_policy: owned(self.read_policy.as_str()),
            proxy: self.proxy,
            no_network: self.no_network,
            bind_ports: binds,
            allowed_unix: copy_strings(&self.allowed_unix),
            resolved_unix,
            closures: copy_closures(&self.closures),
            tag: owned(self.tag.as_str()),
        };
        proof {
            if bind_problem(texts(self.allowed_bind@)) is Some {
                assert(q.bind_ports@.len() == 0);
            }
        }
        let r = crate::sandbox_profile::build_sandbox_profile(&q);
        assert(profile_request_of(q, *self, repos, resolved));
        r
    }
}

// ---------------------------------------------------------------------------
// After a run
// ---------------------------------------------------------------------------

/// The exit code porta reports when a run hit its `--timeout`.
pub const TIMED_OUT: i64 = 124;

/// What a command ended by its CPU ceiling reports: 128 + SIGXCPU.
pub const CPU_EXCEEDED: i64 = 152;

/// What a run ended for passing its memory ceiling reports: 128 + SIGKILL.
pub const MEMORY_EXCEEDED: i64 = 137;

/// Whether to say after a run what the sandbox refused: `--why` asks
/// always; else the `PORTA_DENIALS` setting: `never` keeps the footer away,
/// `always` asks for it, and otherwise only a run that failed on its own
/// (not one porta's supervisor ended) is questioned.
pub fn denials_wanted(why: bool, setting: &str, code: i64) -> (r: bool)
    ensures
        r == ({
            let s = if why { "always"@ } else { setting@ };
            let ended_by_porta = code == TIMED_OUT || code == CPU_EXCEEDED || code == MEMORY_EXCEEDED;
            !(s == "never"@ || ((code == 0 || ended_by_porta) && s != "always"@))
        }),
{
    proof {
        reveal_strlit("always");
        reveal_strlit("never");
        assert("always"@ != "never"@) by {
            assert("always"@.len() != "never"@.len());
        }
    }
    let always = why || same_text(setting, "always");
    let never = !why && same_text(setting, "never");
    let ended_by_porta = code == TIMED_OUT || code == CPU_EXCEEDED || code == MEMORY_EXCEEDED;
    !(never || ((code == 0 || ended_by_porta) && !always))
}

// ---------------------------------------------------------------------------
// What the platform's enforcement says of a request
// ---------------------------------------------------------------------------

/// What the host's enforcement says of one request: on Linux whether the
/// kernel can express its Landlock ruleset (the refusal if not) and whether
/// the command gets namespaces of its own; on macOS the profile it runs
/// under.
pub enum Enforcement {
    Linux { ruleset_refusal: Option<String>, namespaces: bool },
    MacOs { profile: String },
    Other,
}

/// What the seccomp program closes, in words.
pub open spec fn seccomp_words(egress: Egress) -> Seq<char> {
    match egress {
        Egress::ProxyOnly => "baseline plus: socket() only for AF_INET SOCK_STREAM"@,
        Egress::TcpPorts => "baseline plus: an AF_INET/AF_INET6 socket only as TCP (no UDP; names resolve over TCP 53)"@,
        Egress::Open => "baseline: ptrace, process_vm_*, mounts, namespaces, io_uring, raw/packet/vsock, MPTCP refused"@,
    }
}

/// The enforcement paragraph of `explain`.
pub open spec fn enforcement_text(r: SandboxRequest, e: Enforcement) -> Seq<char> {
    match e {
        Enforcement::Linux { ruleset_refusal, namespaces } => {
            let egress = if r.proxy || (r.no_network && !namespaces) {
                Egress::ProxyOnly
            } else if r.allowed_net@.len() > 0 {
                Egress::TcpPorts
            } else {
                Egress::Open
            };
            let ruleset = match ruleset_refusal {
                None => "this kernel can express every rule above"@,
                Some(reason) => "this kernel cannot: "@ + reason@,
            };
            "\nLandlock      "@ + ruleset + "\nseccomp       "@ + seccomp_words(egress) + "\n"@
        },
        Enforcement::MacOs { profile } => "\nsandbox-exec profile:\n"@ + profile@,
        Enforcement::Other => "\nno enforcement backend on this platform; every native run is refused\n"@,
    }
}

impl SandboxRequest {
    /// The enforcement paragraph of `explain`.
    pub fn explain_enforcement(&self, enforcement: &Enforcement) -> (r: String)
        ensures
            r@ == enforcement_text(*self, *enforcement),
    {
        match enforcement {
            Enforcement::Linux { ruleset_refusal, namespaces } => {
                let mut t = owned("\nLandlock      ");
                match ruleset_refusal {
                    None => push_str(&mut t, "this kernel can express every rule above"),
                    Some(reason) => {
                        push_str(&mut t, "this kernel cannot: ");
                        push_str(&mut t, reason.as_str());
                    },
                }
                push_str(&mut t, "\nseccomp       ");
                match self.egress(*namespaces) {
                    Egress::ProxyOnly => push_str(&mut t, "baseline plus: socket() only for AF_INET SOCK_STREAM"),
                    Egress::TcpPorts => push_str(
                        &mut t,
                        "baseline plus: an AF_INET/AF_INET6 socket only as TCP (no UDP; names resolve over TCP 53)",
                    ),
                    Egress::Open => push_str(
                        &mut t,
                        "baseline: ptrace, process_vm_*, mounts, namespaces, io_uring, raw/packet/vsock, MPTCP refused",
                    ),
                }
                push_str(&mut t, "\n");
                t
            },
            Enforcement::MacOs { profile } => {
                let mut t = owned("\nsandbox-exec profile:\n");
                push_str(&mut t, profile.as_str());
                t
            },
            Enforcement::Other => owned("\nno enforcement backend on this platform; every native run is refused\n"),
        }
    }
}

// ---------------------------------------------------------------------------
// The command line that reproduces a request
// ---------------------------------------------------------------------------

/// A character a shell takes as it is.
pub open spec fn plain_char(c: char) -> bool {
    ('a' <= c <= 'z') || ('A' <= c <= 'Z') || ('0' <= c <= '9') || c == '-' || c == '_' || c == '.' || c == '/'
        || c == ':' || c == '=' || c == '@' || c == '%' || c == '+' || c == ','
}

/// One character inside single quotes: a quote closes them, is written
/// escaped, and opens them again.
pub open spec fn shell_quote_char(c: char) -> Seq<char> {
    if c == '\'' { seq!['\'', '\\', '\'', '\''] } else { seq![c] }
}

/// The characters of `s` as they are written inside single quotes.
pub open spec fn quote_body(s: Seq<char>) -> Seq<char> {
    crate::text::flat_map(s, |c: char| shell_quote_char(c))
}

/// `word` as a shell would need it typed: bare when it is plain, in single
/// quotes otherwise, each quote in it written `'\''`.
pub open spec fn shell_quoted(word: Seq<char>) -> Seq<char> {
    if word.len() > 0 && forall|i: int| 0 <= i < word.len() ==> plain_char(#[trigger] word[i]) {
        word
    } else {
        seq!['\''] + quote_body(word) + seq!['\'']
    }
}

/// `word` as a shell would need it typed.
pub fn shell_word(word: &str) -> (r: String)
    ensures
        r@ == shell_quoted(word@),
{
    let chars = chars_of(word);
    let mut plain = chars.len() > 0;
    let mut i: usize = 0;
    while i < chars.len()
        invariant
            i <= chars@.len(),
            chars@ == word@,
            plain == (chars@.len() > 0 && forall|k: int| 0 <= k < i ==> plain_char(#[trigger] chars@[k])),
        decreases chars.len() - i,
    {
        let c = chars[i];
        let ok = ('a' <= c && c <= 'z') || ('A' <= c && c <= 'Z') || ('0' <= c && c <= '9') || c == '-' || c == '_'
            || c == '.' || c == '/' || c == ':' || c == '=' || c == '@' || c == '%' || c == '+' || c == ',';
        if !ok {
            plain = false;
        }
        i = i + 1;
    }
    if plain {
        return owned(word);
    }
    let mut out = String::new();
    push_char(&mut out, '\'');
    let mut j: usize = 0;
    while j < chars.len()
        invariant
            j <= chars@.len(),
            chars@ == word@,
            out@ == seq!['\''] + quote_body(chars@.take(j as int)),
        decreases chars.len() - j,
    {
        let c = chars[j];
        if c == '\'' {
            push_char(&mut out, '\'');
            push_char(&mut out, '\\');
            push_char(&mut out, '\'');
            push_char(&mut out, '\'');
        } else {
            push_char(&mut out, c);
        }
        proof {
            crate::text::lemma_flat_map_step(chars@, |c: char| shell_quote_char(c), j as int);
        }
        assert(out@ =~= seq!['\''] + quote_body(chars@.take(j + 1)));
        j = j + 1;
    }
    push_char(&mut out, '\'');
    assert(chars@.take(chars@.len() as int) =~= chars@);
    out
}

/// Each item between `pre` and `post`, one after another.
pub open spec fn each_between(items: Seq<Seq<char>>, pre: Seq<char>, post: Seq<char>) -> Seq<char>
    decreases items.len(),
{
    if items.len() == 0 { Seq::empty() } else { each_between(items.drop_last(), pre, post) + pre + items.last() + post }
}

/// The grants of a request as `porta run` options.
pub open spec fn rerun_grants(r: SandboxRequest) -> Seq<char> {
    each_between(texts(r.allowed_dirs@), " -v "@, Seq::empty())
        + (if r.proxy {
            " --proxy-allow <hosts>"@
        } else {
            each_between(texts(r.allowed_net@), " --allow-net '"@, "'"@)
        })
        + each_between(texts(r.allowed_bind@), " --allow-bind "@, Seq::empty())
        + each_between(texts(r.allowed_unix@), " --allow-unix "@, Seq::empty())
}

/// The read policy and the command's arguments, as `porta run` takes them.
pub open spec fn rerun_rest(r: SandboxRequest) -> Seq<char> {
    (if r.read_policy@ == "strict"@ { " --read-policy strict"@ } else { Seq::empty() })
        + (if r.args@.len() > 0 {
            " -- "@ + join(texts(r.args@).map_values(|a: Seq<char>| shell_quoted(a)), " "@)
        } else {
            Seq::empty()
        })
}

/// The `porta run` command line that reproduces a request.
pub open spec fn rerun_text(r: SandboxRequest) -> Seq<char> {
    "porta run "@ + r.cmd@ + rerun_grants(r) + rerun_rest(r)
}

/// Appends each item between `pre` and `post`.
fn push_each_between(out: &mut String, items: &Vec<String>, pre: &str, post: &str)
    ensures
        final(out)@ == old(out)@ + each_between(texts(items@), pre@, post@),
{
    let ghost start = out@;
    let mut i: usize = 0;
    while i < items.len()
        invariant
            i <= items@.len(),
            out@ == start + each_between(texts(items@.take(i as int)), pre@, post@),
        decreases items.len() - i,
    {
        push_str(out, pre);
        push_str(out, items[i].as_str());
        push_str(out, post);
        proof {
            let t = texts(items@.take(i + 1));
            assert(t.drop_last() =~= texts(items@.take(i as int)));
            assert(t.last() == items@[i as int]@);
        }
        assert(out@ =~= start + each_between(texts(items@.take(i + 1)), pre@, post@));
        i = i + 1;
    }
    assert(items@.take(items@.len() as int) =~= items@);
}

impl SandboxRequest {
    /// The `porta run` command line that would reproduce this request, for
    /// the footer to add grants to. Options are rebuilt from the policy, so
    /// the order is porta's.
    pub fn rerun_line(&self) -> (r: String)
        ensures
            r@ == rerun_text(*self),
    {
        let mut line = owned("porta run ");
        push_str(&mut line, self.cmd.as_str());
        let ghost start = line@;
        proof { reveal_strlit(""); }
        assert(""@ =~= Seq::<char>::empty());
        push_each_between(&mut line, &self.allowed_dirs, " -v ", "");
        if self.proxy {
            push_str(&mut line, " --proxy-allow <hosts>");
        } else {
            push_each_between(&mut line, &self.allowed_net, " --allow-net '", "'");
        }
        push_each_between(&mut line, &self.allowed_bind, " --allow-bind ", "");
        push_each_between(&mut line, &self.allowed_unix, " --allow-unix ", "");
        assert(line@ =~= start + rerun_grants(*self));
        let ghost middle = line@;
        if same_text(self.read_policy.as_str(), "strict") {
            push_str(&mut line, " --read-policy strict");
        }
        if self.args.len() > 0 {
            push_str(&mut line, " -- ");
            let mut words: Vec<String> = Vec::new();
            let mut i: usize = 0;
            while i < self.args.len()
                invariant
                    i <= self.args@.len(),
                    words@.len() == i,
                    forall|k: int| 0 <= k < i ==> (#[trigger] words@[k])@ == shell_quoted(self.args@[k]@),
                decreases self.args.len() - i,
            {
                let w = shell_word(self.args[i].as_str());
                words.push(w);
                i = i + 1;
            }
            assert(texts(words@) =~= texts(self.args@).map_values(|a: Seq<char>| shell_quoted(a)));
            push_str(&mut line, join_texts(words.as_slice(), " ").as_str());
        }
        assert(line@ =~= middle + rerun_rest(*self));
        line
    }
}

// ---------------------------------------------------------------------------
// The answers of the entry points
// ---------------------------------------------------------------------------

/// `{"error":"<reason>"}`, the reason escaped.
pub open spec fn json_error_text(reason: Seq<char>) -> Seq<char> {
    "{\"error\":\""@ + json_escaped(reason) + "\"}"@
}

/// The JSON error every entry point answers a refusal with.
pub fn json_error(reason: &str) -> (r: String)
    ensures
        r@ == json_error_text(reason@),
{
    let mut t = owned("{\"error\":\"");
    push_json_escaped(&mut t, reason);
    push_str(&mut t, "\"}");
    t
}

/// What a captured run produced: its exit code (none when a signal ended
/// it), its output and error output as text; or why it could not be run.
pub enum Captured {
    Finished { code: Option<i32>, stdout: String, stderr: String },
    Failed { error: String },
}

/// The single shape every captured run reports.
pub open spec fn finish_text(c: Captured) -> Seq<char> {
    match c {
        Captured::Failed { error } => "{\"error\":\"sandbox exec failed: "@ + json_escaped(error@) + "\"}"@,
        Captured::Finished { code, stdout, stderr } => "{\"exit_code\":"@ + crate::text::signed_decimal(
            match code {
                Some(c) => c as int,
                None => -1,
            },
        ) + ",\"stdout\":\""@ + json_escaped(stdout@) + "\",\"stderr\":\""@ + json_escaped(stderr@) + "\"}"@,
    }
}

/// The report of a captured run, in the one shape every platform gives it.
pub fn finish_sandboxed(captured: &Captured) -> (r: String)
    ensures
        r@ == finish_text(*captured),
{
    match captured {
        Captured::Failed { error } => {
            let mut t = owned("{\"error\":\"sandbox exec failed: ");
            push_json_escaped(&mut t, error.as_str());
            push_str(&mut t, "\"}");
            t
        },
        Captured::Finished { code, stdout, stderr } => {
            let mut t = owned("{\"exit_code\":");
            let n: i64 = match code {
                Some(c) => *c as i64,
                None => -1,
            };
            crate::text::push_signed_decimal(&mut t, n);
            push_str(&mut t, ",\"stdout\":\"");
            push_json_escaped(&mut t, stdout.as_str());
            push_str(&mut t, "\",\"stderr\":\"");
            push_json_escaped(&mut t, stderr.as_str());
            push_str(&mut t, "\"}");
            t
        },
    }
}

/// The answer of a captured sandboxed run: the report of the run, or the
/// JSON error when the request was refused before it started.
pub fn wt_exec_sandboxed(outcome: &Result<Captured, String>) -> (r: String)
    ensures
        r@ == match outcome {
            Ok(c) => finish_text(*c),
            Err(reason) => json_error_text(reason@),
        },
{
    match outcome {
        Ok(captured) => finish_sandboxed(captured),
        Err(reason) => json_error(reason.as_str()),
    }
}

/// The answer of a run that was to replace porta with the command: it comes
/// back only when that failed, and says why.
pub fn wt_exec_replace(failure: &str) -> (r: String)
    ensures
        r@ == json_error_text(failure@),
{
    json_error(failure)
}

/// The answer of a supervised run: `{"exit_code":N}`, or the JSON error when
/// the run was refused before it started.
pub fn wt_exec_supervised(outcome: &Result<i64, String>) -> (r: String)
    ensures
        r@ == match outcome {
            Ok(code) => "{\"exit_code\":"@ + crate::text::signed_decimal(*code as int) + "}"@,
            Err(reason) => json_error_text(reason@),
        },
{
    match outcome {
        Ok(code) => {
            let mut t = owned("{\"exit_code\":");
            crate::text::push_signed_decimal(&mut t, *code);
            push_str(&mut t, "}");
            t
        },
        Err(reason) => json_error(reason.as_str()),
    }
}

/// How the copy of porta `--why` starts under `strace` came back: the request
/// was refused (`Err`), applying it in place failed with this text
/// (`Ok(Some)`), or the platform runs no request in place (`Ok(None)`).
/// The answer is that text as it is.
pub fn wt_exec_inner(outcome: &Result<Option<String>, String>) -> (r: String)
    ensures
        r@ == match outcome {
            Ok(Some(failure)) => failure@,
            Ok(None) => "running a request in place is only how --why works on Linux"@,
            Err(reason) => reason@,
        },
{
    match outcome {
        Ok(Some(failure)) => owned(failure.as_str()),
        Ok(None) => owned("running a request in place is only how --why works on Linux"),
        Err(reason) => owned(reason.as_str()),
    }
}

/// What `explain` needs of the host besides the request.
pub struct ExplainHost {
    pub platform: Platform,
    /// The host variables the child keeps that are set here.
    pub inherited: Vec<String>,
    /// The credential sockets bound now that the request closes.
    pub bound: Vec<String>,
    pub enforcement: Enforcement,
}

/// The explanation of an accepted request on its host.
pub open spec fn explained(r: SandboxRequest, h: ExplainHost) -> Seq<char> {
    explain_text(r, h.platform, texts(h.inherited@), texts(h.bound@), enforcement_text(r, h.enforcement))
}

/// The policy a request would apply, in words, without applying it; a
/// request porta refuses explains the refusal instead.
pub fn wt_sandbox_explain(outcome: &Result<(SandboxRequest, ExplainHost), String>) -> (r: String)
    ensures
        r@ == match outcome {
            Ok(accepted) => explained(accepted.0, accepted.1),
            Err(reason) => "porta would refuse this run: "@ + reason@ + "\n"@,
        },
{
    match outcome {
        Ok((request, host)) => {
            let enforcement = request.explain_enforcement(&host.enforcement);
            request.explain(host.platform, &host.inherited, &host.bound, enforcement.as_str())
        },
        Err(reason) => {
            let mut t = owned("porta would refuse this run: ");
            push_str(&mut t, reason.as_str());
            push_str(&mut t, "\n");
            t
        },
    }
}

/// The policy as one JSON object, or `{"refused":"..."}` when porta would
/// refuse the run before it began.
pub fn wt_sandbox_explain_json(outcome: &Result<(SandboxRequest, Platform), String>) -> (r: String)
    ensures
        r@ == match outcome {
            Ok(accepted) => explain_json_text(accepted.0, backend_name(accepted.1)),
            Err(reason) => "{\"refused\":\""@ + json_escaped(reason@) + "\"}"@,
        },
{
    match outcome {
        Ok((request, platform)) => request.explain_json(enforcement_backend(*platform)),
        Err(reason) => {
            let mut t = owned("{\"refused\":\"");
            push_json_escaped(&mut t, reason.as_str());
            push_str(&mut t, "\"}");
            t
        },
    }
}


// ---------------------------------------------------------------------------
// TOML
// ---------------------------------------------------------------------------

/// What a TOML document reads as: its value written as JSON text, or the
/// parser's message.
pub uninterp spec fn toml_json(text: Seq<char>) -> Result<Seq<char>, Seq<char>>;

/// `toml::from_str::<toml::Value>`, the value then written by
/// `serde_json::to_string`; an error as its `to_string()`. What the parser
/// accepts, the value it reads and its messages are toml's, and how the value
/// is written is serde_json's; the contract names the result.
#[verifier::external_body]
fn toml_as_json(text: &str) -> (r: Result<String, String>)
    ensures
        match r {
            Ok(v) => toml_json(text@) == Ok::<Seq<char>, Seq<char>>(v@),
            Err(e) => toml_json(text@) == Err::<Seq<char>, Seq<char>>(e@),
        },
{
    match toml::from_str::<toml::Value>(text) {
        Ok(value) => serde_json::to_string(&value).map_err(|error| error.to_string()),
        Err(error) => Err(error.to_string()),
    }
}

/// The answer for a TOML document: `{"value":…}` with its value as JSON, or
/// `{"error":"…"}` with the parser's message.
pub open spec fn toml_answer(content: Seq<char>) -> Seq<char> {
    match toml_json(content) {
        Ok(v) => "{\"value\":"@ + v + "}"@,
        Err(e) => "{\"error\":"@ + crate::agent::serde_quoted(e) + "}"@,
    }
}

/// A TOML document read through the maintained parser, its JSON-compatible
/// values kept: `{"value":…}` or `{"error":"…"}`.
pub fn wt_parse_toml(content: &str) -> (r: String)
    ensures
        r@ == toml_answer(content@),
{
    match toml_as_json(content) {
        Ok(value) => {
            let mut r = owned("{\"value\":");
            push_str(&mut r, value.as_str());
            push_str(&mut r, "}");
            r
        },
        Err(error) => {
            let mut r = owned("{\"error\":");
            let quoted = crate::agent::json_string(error.as_str());
            push_str(&mut r, quoted.as_str());
            push_str(&mut r, "}");
            r
        },
    }
}

} // verus!
