//! The Linux side of one sandboxed request: the mounts, ports and read
//! policy a caller asked for, turned into the Landlock policy the kernel
//! will be given, or into the reason it cannot express it.

use vstd::prelude::*;
use crate::text::{chars_of, ends, owned, parse_u16, push_str, string_of};
use crate::words::{rsplit_once, rsplit_once_at, str_ends, texts};

verus! {

/// What the caller asks the kernel to enforce.
pub struct Policy {
    pub writable_dirs: Vec<String>,
    /// Roots the caller was granted read access to.
    pub readable_dirs: Vec<String>,
    /// The platform's own directories (skipped where absent).
    pub system_dirs: Vec<String>,
    /// Single files under `/etc` a command needs to start.
    pub system_files: Vec<String>,
    pub restrict_reads: bool,
    pub tcp_ports: Vec<u16>,
    /// Ports the command may listen on.
    pub bind_ports: Vec<u16>,
    pub restrict_network: bool,
    /// Under open reads, paths closed anyway.
    pub open_reads_except: Vec<String>,
}

/// Writable on every run: the temporary directory and the devices.
pub open spec fn always_writable() -> Seq<Seq<char>> {
    seq!["/tmp"@, "/dev"@]
}

/// The platform's own directories, readable under a strict read policy.
pub open spec fn system_readable() -> Seq<Seq<char>> {
    seq!["/usr"@, "/lib"@, "/lib64"@, "/bin"@, "/sbin"@]
}

/// Subdirectories of `/etc` a command reads to start.
pub open spec fn system_etc_dirs() -> Seq<Seq<char>> {
    seq![
        "/etc/ssl"@, "/etc/pki"@, "/etc/ca-certificates"@, "/etc/crypto-policies"@, "/etc/ld.so.conf.d"@,
        "/etc/alternatives"@, "/etc/profile.d"@, "/etc/terminfo"@, "/etc/default"@,
    ]
}

fn push_all(out: &mut Vec<String>, items: &[&str])
    ensures
        texts(final(out)@) == texts(old(out)@) + items@.map_values(|s: &str| s@),
{
    let ghost start = texts(out@);
    let mut i: usize = 0;
    while i < items.len()
        invariant
            i <= items@.len(),
            texts(out@) == start + items@.take(i as int).map_values(|s: &str| s@),
        decreases items.len() - i,
    {
        let ghost before = out@;
        out.push(owned(items[i]));
        assert(texts(out@) =~= texts(before).push(items@[i as int]@));
        assert(items@.take(i + 1).map_values(|s: &str| s@) =~= items@.take(i as int).map_values(|s: &str| s@).push(items@[i as int]@));
        i = i + 1;
    }
    assert(items@.take(items@.len() as int) =~= items@);
}

/// The platform's own directories, as owned strings.
pub fn system_dirs() -> (r: Vec<String>)
    ensures
        texts(r@) == system_readable() + system_etc_dirs(),
{
    let mut out: Vec<String> = Vec::new();
    let own: [&str; 5] = ["/usr", "/lib", "/lib64", "/bin", "/sbin"];
    let etc: [&str; 9] = [
        "/etc/ssl", "/etc/pki", "/etc/ca-certificates", "/etc/crypto-policies", "/etc/ld.so.conf.d",
        "/etc/alternatives", "/etc/profile.d", "/etc/terminfo", "/etc/default",
    ];
    push_all(&mut out, own.as_slice());
    push_all(&mut out, etc.as_slice());
    assert(texts(out@) =~= system_readable() + system_etc_dirs());
    out
}

/// Single files under `/etc` a command reads to start, or to resolve a name,
/// a user, a zone or a service; nothing secret to the user is among them
/// (no `shadow`, no `gshadow`, no `sudoers`, no key).
pub open spec fn system_file_names() -> Seq<Seq<char>> {
    seq![
        "/etc/ld.so.cache"@, "/etc/ld.so.conf"@, "/etc/ld.so.preload"@, "/etc/localtime"@, "/etc/timezone"@,
        "/etc/resolv.conf"@, "/etc/hosts"@, "/etc/host.conf"@, "/etc/nsswitch.conf"@, "/etc/gai.conf"@, "/etc/passwd"@,
        "/etc/group"@, "/etc/services"@, "/etc/protocols"@, "/etc/os-release"@, "/etc/hostname"@, "/etc/machine-id"@,
        "/etc/shells"@, "/etc/environment"@, "/etc/profile"@, "/etc/bash.bashrc"@, "/etc/inputrc"@, "/etc/mime.types"@,
        "/etc/gitconfig"@, "/etc/ca-certificates.conf"@, "/etc/locale.alias"@, "/etc/locale.gen"@, "/etc/login.defs"@,
    ]
}

/// The files of [`system_file_names`], as owned strings.
pub fn system_files() -> (r: Vec<String>)
    ensures
        texts(r@) == system_file_names(),
{
    let mut out: Vec<String> = Vec::new();
    let files: [&str; 28] = [
        "/etc/ld.so.cache", "/etc/ld.so.conf", "/etc/ld.so.preload", "/etc/localtime", "/etc/timezone",
        "/etc/resolv.conf", "/etc/hosts", "/etc/host.conf", "/etc/nsswitch.conf", "/etc/gai.conf", "/etc/passwd",
        "/etc/group", "/etc/services", "/etc/protocols", "/etc/os-release", "/etc/hostname", "/etc/machine-id",
        "/etc/shells", "/etc/environment", "/etc/profile", "/etc/bash.bashrc", "/etc/inputrc", "/etc/mime.types",
        "/etc/gitconfig", "/etc/ca-certificates.conf", "/etc/locale.alias", "/etc/locale.gen", "/etc/login.defs",
    ];
    push_all(&mut out, files.as_slice());
    assert(texts(out@) =~= system_file_names());
    out
}

// ---------------------------------------------------------------------------
// Ports
// ---------------------------------------------------------------------------

/// What Landlock makes of one `--allow-net` entry: the numeric port after
/// its last `:`, or the refusal.
pub open spec fn entry_port(entry: Seq<char>) -> Result<u16, Seq<char>> {
    match rsplit_once(entry, ":"@) {
        None => Err("--allow-net entry has no port: "@ + entry),
        Some(halves) => match parse_u16(halves.1) {
            Some(p) => if p > 0 {
                Ok(p)
            } else {
                Err("Landlock cannot express the port in --allow-net "@ + entry + "; name a numeric TCP port"@)
            },
            None => Err("Landlock cannot express the port in --allow-net "@ + entry + "; name a numeric TCP port"@),
        },
    }
}

/// The TCP ports of the first `k` entries, or the refusal of the first that
/// cannot be expressed.
pub open spec fn ports_of(entries: Seq<Seq<char>>) -> Result<Seq<u16>, Seq<char>>
    decreases entries.len(),
{
    if entries.len() == 0 {
        Ok(Seq::empty())
    } else {
        match ports_of(entries.drop_last()) {
            Err(e) => Err(e),
            Ok(ports) => match entry_port(entries.last()) {
                Ok(p) => Ok(ports.push(p)),
                Err(e) => Err(e),
            },
        }
    }
}

proof fn lemma_ports_of_fails(entries: Seq<Seq<char>>, k: int)
    requires
        0 <= k < entries.len(),
        ports_of(entries.take(k)) is Ok,
        entry_port(entries[k]) is Err,
    ensures
        ports_of(entries) == Err::<Seq<u16>, Seq<char>>(entry_port(entries[k])->Err_0),
    decreases entries.len() - k,
{
    if k + 1 < entries.len() {
        assert(entries.drop_last().take(k) =~= entries.take(k));
        lemma_ports_of_fails(entries.drop_last(), k);
    } else {
        assert(entries.drop_last() =~= entries.take(k));
    }
}

/// The TCP ports of `--allow-net` entries, or the refusal of the first entry
/// Landlock cannot express (it names ports only: "any port" is refused
/// rather than silently left open).
pub fn requested_tcp_ports(allowed_net: &[String]) -> (r: Result<Vec<u16>, String>)
    ensures
        match ports_of(texts(allowed_net@)) {
            Ok(ports) => r is Ok && r->Ok_0@ == ports,
            Err(e) => r is Err && r->Err_0@ == e,
        },
{
    let mut ports: Vec<u16> = Vec::new();
    let mut i: usize = 0;
    let colon: [char; 1] = [':'];
    proof { reveal_strlit(":"); }
    assert(colon@ =~= ":"@);
    assert(texts(allowed_net@.take(0)) =~= Seq::<Seq<char>>::empty());
    while i < allowed_net.len()
        invariant
            i <= allowed_net@.len(),
            colon@ == ":"@,
            ports_of(texts(allowed_net@.take(i as int))) == Ok::<Seq<u16>, Seq<char>>(ports@),
        decreases allowed_net.len() - i,
    {
        let entry = allowed_net[i].as_str();
        let chars = chars_of(entry);
        proof {
            assert(texts(allowed_net@.take(i + 1)).drop_last() =~= texts(allowed_net@.take(i as int)));
            assert(texts(allowed_net@.take(i + 1)).last() == entry@);
            assert(texts(allowed_net@).take(i as int) =~= texts(allowed_net@.take(i as int)));
            assert(texts(allowed_net@)[i as int] == entry@);
        }
        let refused = match rsplit_once_at(chars.as_slice(), colon.as_slice()) {
            None => {
                let mut message = owned("--allow-net entry has no port: ");
                push_str(&mut message, entry);
                Some(message)
            },
            Some((_, port)) => match crate::text::parse_port(port.as_slice()) {
                Some(p) => {
                    if p > 0 {
                        ports.push(p);
                        None
                    } else {
                        let mut message = owned("Landlock cannot express the port in --allow-net ");
                        push_str(&mut message, entry);
                        push_str(&mut message, "; name a numeric TCP port");
                        Some(message)
                    }
                },
                None => {
                    let mut message = owned("Landlock cannot express the port in --allow-net ");
                    push_str(&mut message, entry);
                    push_str(&mut message, "; name a numeric TCP port");
                    Some(message)
                },
            },
        };
        if let Some(message) = refused {
            proof {
                lemma_ports_of_fails(texts(allowed_net@), i as int);
            }
            return Err(message);
        }
        i = i + 1;
    }
    assert(allowed_net@.take(allowed_net@.len() as int) =~= allowed_net@);
    Ok(ports)
}

// ---------------------------------------------------------------------------
// Directories
// ---------------------------------------------------------------------------

/// The mounts not marked `:ro`, in order.
pub open spec fn writable_mounts(dirs: Seq<Seq<char>>) -> Seq<Seq<char>>
    decreases dirs.len(),
{
    if dirs.len() == 0 {
        Seq::empty()
    } else if ends(dirs.last(), ":ro"@) {
        writable_mounts(dirs.drop_last())
    } else {
        writable_mounts(dirs.drop_last()).push(dirs.last())
    }
}

/// `s` with every trailing `:ro` removed (`trim_end_matches(":ro")`).
pub open spec fn without_ro(s: Seq<char>) -> Seq<char>
    decreases s.len(),
{
    if s.len() >= 3 && ends(s, ":ro"@) { without_ro(s.subrange(0, s.len() - 3)) } else { s }
}

/// The writable roots: the mounts not marked `:ro`, then `/tmp` and `/dev`.
pub fn writable_dirs(allowed_dirs: &[String]) -> (r: Vec<String>)
    ensures
        texts(r@) == writable_mounts(texts(allowed_dirs@)) + always_writable(),
{
    let mut dirs: Vec<String> = Vec::new();
    let mut i: usize = 0;
    assert(texts(allowed_dirs@.take(0)) =~= Seq::<Seq<char>>::empty());
    while i < allowed_dirs.len()
        invariant
            i <= allowed_dirs@.len(),
            texts(dirs@) == writable_mounts(texts(allowed_dirs@.take(i as int))),
        decreases allowed_dirs.len() - i,
    {
        proof {
            assert(texts(allowed_dirs@.take(i + 1)).drop_last() =~= texts(allowed_dirs@.take(i as int)));
            assert(texts(allowed_dirs@.take(i + 1)).last() == allowed_dirs@[i as int]@);
        }
        if !str_ends(allowed_dirs[i].as_str(), ":ro") {
            let ghost before = dirs@;
            dirs.push(owned(allowed_dirs[i].as_str()));
            assert(texts(dirs@) =~= texts(before).push(allowed_dirs@[i as int]@));
        }
        i = i + 1;
    }
    assert(allowed_dirs@.take(allowed_dirs@.len() as int) =~= allowed_dirs@);
    let always: [&str; 2] = ["/tmp", "/dev"];
    push_all(&mut dirs, always.as_slice());
    assert(always@.map_values(|s: &str| s@) =~= always_writable());
    dirs
}

/// `dir` without its trailing `:ro` markers.
fn strip_ro(dir: &str) -> (r: String)
    ensures
        r@ == without_ro(dir@),
{
    let chars = chars_of(dir);
    let mut end: usize = chars.len();
    assert(chars@.subrange(0, end as int) =~= chars@);
    while end >= 3 && chars[end - 3] == ':' && chars[end - 2] == 'r' && chars[end - 1] == 'o'
        invariant
            end <= chars@.len(),
            chars@ == dir@,
            without_ro(dir@) == without_ro(chars@.subrange(0, end as int)),
        decreases end,
    {
        proof {
            let s = chars@.subrange(0, end as int);
            reveal_strlit(":ro");
            assert(s.subrange(s.len() - 3, s.len() as int) =~= ":ro"@);
            assert(s.subrange(0, s.len() - 3) =~= chars@.subrange(0, end - 3));
        }
        end = end - 3;
    }
    proof {
        let s = chars@.subrange(0, end as int);
        reveal_strlit(":ro");
        assert(":ro"@ =~= seq![':', 'r', 'o']);
        if s.len() >= 3 && ends(s, ":ro"@) {
            let t = s.subrange(s.len() - 3, s.len() as int);
            assert(t == seq![':', 'r', 'o']);
            assert(t[0] == s[s.len() - 3] && t[1] == s[s.len() - 2] && t[2] == s[s.len() - 1]);
            assert(chars@[end - 3] == ':' && chars@[end - 2] == 'r' && chars@[end - 1] == 'o');
        }
    }
    crate::text::slice_text(chars.as_slice(), 0, end)
}

/// Every mount the caller was granted, read-only ones included, without the
/// marker.
pub fn readable_dirs(allowed_dirs: &[String]) -> (r: Vec<String>)
    ensures
        r@.len() == allowed_dirs@.len(),
        forall|i: int| 0 <= i < r@.len() ==> (#[trigger] r@[i])@ == without_ro(allowed_dirs@[i]@),
{
    let mut dirs: Vec<String> = Vec::new();
    let mut i: usize = 0;
    while i < allowed_dirs.len()
        invariant
            i <= allowed_dirs@.len(),
            dirs@.len() == i,
            forall|k: int| 0 <= k < i ==> (#[trigger] dirs@[k])@ == without_ro(allowed_dirs@[k]@),
        decreases allowed_dirs.len() - i,
    {
        dirs.push(strip_ro(allowed_dirs[i].as_str()));
        i = i + 1;
    }
    dirs
}

/// Everything a strict read policy leaves readable that a command could
/// live in: the granted mounts, the platform's own directories, `/tmp` and
/// `/dev`.
pub fn readable_roots(allowed_dirs: &[String]) -> (r: Vec<String>)
    ensures
        texts(r@) == texts(allowed_dirs@).map_values(|d: Seq<char>| without_ro(d)) + system_readable()
            + always_writable(),
{
    let mut roots = readable_dirs(allowed_dirs);
    assert(texts(roots@) =~= texts(allowed_dirs@).map_values(|d: Seq<char>| without_ro(d)));
    let own: [&str; 5] = ["/usr", "/lib", "/lib64", "/bin", "/sbin"];
    let always: [&str; 2] = ["/tmp", "/dev"];
    push_all(&mut roots, own.as_slice());
    push_all(&mut roots, always.as_slice());
    assert(own@.map_values(|s: &str| s@) =~= system_readable());
    assert(always@.map_values(|s: &str| s@) =~= always_writable());
    roots
}

/// The Landlock policy a request asks for: writes to the writable mounts,
/// `/tmp` and `/dev`; reads confined to the mounts and the platform's own
/// directories under `strict`, or open but for `closed` otherwise; TCP to
/// the ports `--allow-net` names once it names any. The refusal when a port
/// cannot be expressed.
pub fn policy(allowed_dirs: &[String], allowed_net: &[String], bind_ports: &[u16], read_policy: &str, closed: &[String]) -> (r: Result<Policy, String>)
    ensures
        match ports_of(texts(allowed_net@)) {
            Err(e) => r is Err && r->Err_0@ == e,
            Ok(ports) => r is Ok && {
                let p = r->Ok_0;
                let strict = read_policy@ == "strict"@;
                &&& texts(p.writable_dirs@) == writable_mounts(texts(allowed_dirs@)) + always_writable()
                &&& (strict ==> p.readable_dirs@.len() == allowed_dirs@.len() && forall|i: int|
                    0 <= i < allowed_dirs@.len() ==> (#[trigger] p.readable_dirs@[i])@ == without_ro(allowed_dirs@[i]@))
                &&& (!strict ==> p.readable_dirs@.len() == 0)
                &&& texts(p.system_dirs@) == system_readable() + system_etc_dirs()
                &&& texts(p.system_files@) == system_file_names()
                &&& p.restrict_reads == strict
                &&& p.tcp_ports@ == ports
                &&& p.bind_ports@ == bind_ports@
                &&& p.restrict_network == (allowed_net@.len() > 0)
                &&& (strict ==> p.open_reads_except@.len() == 0)
                &&& (!strict ==> texts(p.open_reads_except@) == texts(closed@))
            },
        },
{
    let tcp_ports = match requested_tcp_ports(allowed_net) {
        Ok(ports) => ports,
        Err(reason) => return Err(reason),
    };
    let strict = crate::text::same_text(read_policy, "strict");
    let mut except: Vec<String> = Vec::new();
    if !strict {
        let mut i: usize = 0;
        while i < closed.len()
            invariant
                i <= closed@.len(),
                except@.len() == i,
                forall|k: int| 0 <= k < i ==> (#[trigger] except@[k])@ == closed@[k]@,
            decreases closed.len() - i,
        {
            except.push(owned(closed[i].as_str()));
            i = i + 1;
        }
        assert(texts(except@) =~= texts(closed@));
    }
    let mut binds: Vec<u16> = Vec::new();
    let mut j: usize = 0;
    while j < bind_ports.len()
        invariant
            j <= bind_ports@.len(),
            binds@ == bind_ports@.take(j as int),
        decreases bind_ports.len() - j,
    {
        binds.push(bind_ports[j]);
        assert(binds@ =~= bind_ports@.take(j + 1));
        j = j + 1;
    }
    assert(bind_ports@.take(bind_ports@.len() as int) =~= bind_ports@);
    Ok(Policy {
        writable_dirs: writable_dirs(allowed_dirs),
        readable_dirs: if strict { readable_dirs(allowed_dirs) } else { Vec::new() },
        system_dirs: system_dirs(),
        system_files: system_files(),
        restrict_reads: strict,
        tcp_ports,
        bind_ports: binds,
        restrict_network: allowed_net.len() > 0,
        open_reads_except: except,
    })
}

} // verus!
