//! How a Landlock policy is laid out for the running kernel: which rights
//! the ruleset handles at a given ABI, which rules grant what, and how reads
//! are opened everywhere but beneath the closed paths. A rule the kernel
//! cannot express is refused rather than skipped. The syscalls, opening the
//! paths and walking the filesystem are the host's.

use vstd::prelude::*;
use crate::landlock_policy::Policy;
use crate::text::{owned, push_signed_decimal, push_str, same_text, starts};
use crate::words::texts;

verus! {

/// Reads as Landlock ABI 1 knows them: execute, read a file, read a
/// directory.
pub const READ_RIGHTS_ABI1: u64 = 13;

/// Filesystem writes as Landlock ABI 1 knows them: write a file, remove and
/// make every kind of entry.
pub const WRITE_RIGHTS_ABI1: u64 = 8178;

/// Linking or renaming across directories, from ABI 2.
pub const ACCESS_FS_REFER: u64 = 8192;

/// Truncation as a right of its own, from ABI 3.
pub const ACCESS_FS_TRUNCATE: u64 = 16384;

/// Listing a directory, and nothing beneath it.
pub const ACCESS_FS_READ_DIR: u64 = 8;

/// The rights a rule on a single file may carry: execute, write, read and
/// truncate.
pub const FILE_RIGHTS: u64 = 16391;

/// Binding and connecting TCP ports.
pub const ACCESS_NET_BIND_TCP: u64 = 1;
pub const ACCESS_NET_CONNECT_TCP: u64 = 2;

/// Abstract Unix sockets and signals outside the domain, scoped from ABI 6.
pub const SCOPED_ABI6: u64 = 3;

/// The write rights a kernel of this ABI understands.
pub open spec fn writes_at(abi: i64) -> u64 {
    let r = if abi >= 2 { WRITE_RIGHTS_ABI1 | ACCESS_FS_REFER } else { WRITE_RIGHTS_ABI1 };
    if abi >= 3 { r | ACCESS_FS_TRUNCATE } else { r }
}

/// The write rights a kernel of this ABI understands: cross-directory rename
/// and link from ABI 2 (handled and granted wherever writes are, or a move
/// within a mount degrades), truncation from ABI 3.
pub fn write_rights(abi: i64) -> (r: u64)
    ensures
        r == writes_at(abi),
{
    let mut rights = WRITE_RIGHTS_ABI1;
    if abi >= 2 {
        rights = rights | ACCESS_FS_REFER;
    }
    if abi >= 3 {
        rights = rights | ACCESS_FS_TRUNCATE;
    }
    rights
}

/// The rights a rule carries on a path: all of them on a directory, only
/// those a file can take on a file.
pub fn path_rights(rights: u64, is_dir: bool) -> (r: u64)
    ensures
        r == (if is_dir { rights } else { rights & FILE_RIGHTS }),
{
    if is_dir { rights } else { rights & FILE_RIGHTS }
}

/// The refusal of a kernel without Landlock.
pub fn no_landlock(reason: &str) -> (r: String)
    ensures
        r@ == "this kernel has no usable Landlock support ("@ + reason@
            + "); porta will not run a native command it cannot restrict"@,
{
    let mut t = owned("this kernel has no usable Landlock support (");
    push_str(&mut t, reason);
    push_str(&mut t, "); porta will not run a native command it cannot restrict");
    t
}

/// How reads are granted.
#[derive(PartialEq, Eq, Structural)]
pub enum Reads {
    /// Not handled: every read stays open.
    Open,
    /// Only the granted roots and the platform's own paths that exist.
    Confined,
    /// Everywhere but beneath the closed paths, by a walk from `/`.
    AllBut,
}

/// A ruleset laid out for one kernel: what it handles, its scope and the
/// size of its attributes, and its rules.
pub struct Plan {
    pub handled_fs: u64,
    pub handled_net: u64,
    pub scoped: u64,
    pub attr_size: usize,
    /// Each writable root with the rights it is granted.
    pub writes: Vec<(String, u64)>,
    pub reads: Reads,
    /// The roots granted reads under a confined policy, in order: the
    /// granted mounts, then the platform's own directories and files.
    pub read_roots: Vec<String>,
    pub connect_ports: Vec<u16>,
    pub bind_ports: Vec<u16>,
}

/// The refusal of a network rule on a kernel that cannot express it.
pub open spec fn net_refusal(abi: i64) -> Seq<char> {
    "--allow-net needs Landlock ABI 4 for network rules, this kernel reports "@ + crate::text::signed_decimal(abi as int)
        + "; porta will not run the command with the network open instead"@
}

/// The ruleset `p` is the one a policy makes on a kernel of this ABI.
pub open spec fn laid_out(policy: Policy, abi: i64, p: Plan) -> bool {
    let carve = !policy.restrict_reads && policy.open_reads_except@.len() > 0;
    let reads = if policy.restrict_reads || carve { READ_RIGHTS_ABI1 } else { 0 };
    &&& p.handled_fs == writes_at(abi) | reads
    &&& p.handled_net == (if policy.restrict_network { ACCESS_NET_CONNECT_TCP | ACCESS_NET_BIND_TCP } else { 0 })
    &&& p.scoped == (if abi >= 6 { SCOPED_ABI6 } else { 0 })
    &&& p.attr_size == (if abi >= 6 { 24usize } else { 16usize })
    &&& p.writes@.len() == policy.writable_dirs@.len()
    &&& (forall|i: int| 0 <= i < p.writes@.len() ==> (#[trigger] p.writes@[i]).0@ == policy.writable_dirs@[i]@
        && p.writes@[i].1 == writes_at(abi) | reads)
    &&& p.reads == (if policy.restrict_reads { Reads::Confined } else if carve { Reads::AllBut } else { Reads::Open })
    &&& texts(p.read_roots@) == (if policy.restrict_reads {
        texts(policy.readable_dirs@) + texts(policy.system_dirs@) + texts(policy.system_files@)
    } else {
        Seq::empty()
    })
    &&& p.connect_ports@ == policy.tcp_ports@
    &&& p.bind_ports@ == policy.bind_ports@
}

/// The ruleset a policy makes on a kernel of this ABI, or the refusal of a
/// network rule it cannot express. Writes are handled at the kernel's own
/// rights; reads are handled when confined or carved; TCP connect and bind
/// when the network is restricted; abstract sockets and signals are scoped
/// from ABI 6, with the larger attributes that go with it.
pub fn plan(policy: &Policy, abi: i64) -> (r: Result<Plan, String>)
    ensures
        policy.restrict_network && abi < 4 ==> r is Err && r->Err_0@ == net_refusal(abi),
        !(policy.restrict_network && abi < 4) ==> r is Ok && laid_out(*policy, abi, r->Ok_0),
{
    if policy.restrict_network && abi < 4 {
        let mut t = owned("--allow-net needs Landlock ABI 4 for network rules, this kernel reports ");
        push_signed_decimal(&mut t, abi);
        push_str(&mut t, "; porta will not run the command with the network open instead");
        return Err(t);
    }
    let writes = write_rights(abi);
    let carve = !policy.restrict_reads && policy.open_reads_except.len() > 0;
    let reads: u64 = if policy.restrict_reads || carve { READ_RIGHTS_ABI1 } else { 0 };
    let granted = writes | reads;
    let mut grants: Vec<(String, u64)> = Vec::new();
    let mut i: usize = 0;
    while i < policy.writable_dirs.len()
        invariant
            i <= policy.writable_dirs@.len(),
            grants@.len() == i,
            forall|k: int| 0 <= k < i ==> (#[trigger] grants@[k]).0@ == policy.writable_dirs@[k]@ && grants@[k].1 == granted,
        decreases policy.writable_dirs.len() - i,
    {
        grants.push((owned(policy.writable_dirs[i].as_str()), granted));
        i = i + 1;
    }
    let mut roots: Vec<String> = Vec::new();
    if policy.restrict_reads {
        append_texts(&mut roots, &policy.readable_dirs);
        append_texts(&mut roots, &policy.system_dirs);
        append_texts(&mut roots, &policy.system_files);
    }
    assert(policy.restrict_reads || texts(roots@) =~= Seq::<Seq<char>>::empty());
    Ok(Plan {
        handled_fs: granted,
        handled_net: if policy.restrict_network { ACCESS_NET_CONNECT_TCP | ACCESS_NET_BIND_TCP } else { 0 },
        scoped: if abi >= 6 { SCOPED_ABI6 } else { 0 },
        attr_size: if abi >= 6 { 24 } else { 16 },
        writes: grants,
        reads: if policy.restrict_reads { Reads::Confined } else if carve { Reads::AllBut } else { Reads::Open },
        read_roots: roots,
        connect_ports: copy_ports(&policy.tcp_ports),
        bind_ports: copy_ports(&policy.bind_ports),
    })
}

/// The ruleset a policy makes on this kernel: refused first where the
/// kernel reports no usable Landlock (an ABI below 1; `reason` says why its
/// probe failed), otherwise as [`plan`] lays it out for its ABI.
pub fn plan_on_kernel(policy: &Policy, abi: i64, reason: &str) -> (r: Result<Plan, String>)
    ensures
        abi < 1 ==> r is Err && r->Err_0@ == "this kernel has no usable Landlock support ("@ + reason@
            + "); porta will not run a native command it cannot restrict"@,
        abi >= 1 && policy.restrict_network && abi < 4 ==> r is Err && r->Err_0@ == net_refusal(abi),
        abi >= 1 && !(policy.restrict_network && abi < 4) ==> r is Ok && laid_out(*policy, abi, r->Ok_0),
{
    if abi < 1 {
        return Err(no_landlock(reason));
    }
    plan(policy, abi)
}

fn append_texts(out: &mut Vec<String>, items: &Vec<String>)
    ensures
        texts(final(out)@) == texts(old(out)@) + texts(items@),
{
    let ghost start = texts(out@);
    let mut i: usize = 0;
    while i < items.len()
        invariant
            i <= items@.len(),
            texts(out@) == start + texts(items@).take(i as int),
        decreases items.len() - i,
    {
        let ghost before = texts(out@);
        out.push(owned(items[i].as_str()));
        assert(texts(out@) =~= before.push(items@[i as int]@));
        assert(texts(out@) =~= start + texts(items@).take(i + 1));
        i = i + 1;
    }
    assert(texts(items@).take(items@.len() as int) =~= texts(items@));
}

fn copy_ports(ports: &Vec<u16>) -> (r: Vec<u16>)
    ensures
        r@ == ports@,
{
    let mut r: Vec<u16> = Vec::new();
    let mut i: usize = 0;
    while i < ports.len()
        invariant
            i <= ports@.len(),
            r@ == ports@.take(i as int),
        decreases ports.len() - i,
    {
        r.push(ports[i]);
        assert(r@ =~= ports@.take(i + 1));
        i = i + 1;
    }
    assert(ports@.take(ports@.len() as int) =~= ports@);
    r
}

/// What the walk that opens reads everywhere but beneath the closed paths
/// does at one directory.
#[derive(PartialEq, Eq, Structural)]
pub enum Walk {
    /// A closed path: nothing granted here.
    Skip,
    /// Nothing closed beneath it: granted whole.
    Whole,
    /// Something closed beneath it: listing only, then its entries.
    Descend,
}

/// What the walk does at `here`.
pub open spec fn walk_at(here: Seq<char>, closed: Seq<Seq<char>>) -> Walk {
    let prefix = if here == "/"@ { "/"@ } else { here + "/"@ };
    if closed.contains(here) {
        Walk::Skip
    } else if exists|k: int| 0 <= k < closed.len() && starts(#[trigger] closed[k], prefix) {
        Walk::Descend
    } else {
        Walk::Whole
    }
}

/// What the walk that opens reads everywhere but beneath `closed` does at
/// the directory `here`. Landlock is an allow-list and a grant covers
/// everything under it, so the walk descends only along closed paths.
pub fn walk_step(here: &str, closed: &Vec<String>) -> (r: Walk)
    ensures
        r == walk_at(here@, texts(closed@)),
{
    let prefix = if same_text(here, "/") {
        owned("/")
    } else {
        let mut p = owned(here);
        push_str(&mut p, "/");
        p
    };
    let pc = crate::text::chars_of(prefix.as_str());
    let mut i: usize = 0;
    while i < closed.len()
        invariant
            i <= closed@.len(),
            forall|k: int| 0 <= k < i ==> closed@[k]@ != here@,
        decreases closed.len() - i,
    {
        if same_text(closed[i].as_str(), here) {
            assert(texts(closed@)[i as int] == here@);
            return Walk::Skip;
        }
        i = i + 1;
    }
    proof {
        if texts(closed@).contains(here@) {
            let k = choose|k: int| 0 <= k < texts(closed@).len() && texts(closed@)[k] == here@;
            assert(closed@[k]@ == here@);
        }
    }
    assert(prefix@ == (if here@ == "/"@ { "/"@ } else { here@ + "/"@ }));
    let mut j: usize = 0;
    while j < closed.len()
        invariant
            j <= closed@.len(),
            pc@ == prefix@,
            prefix@ == (if here@ == "/"@ { "/"@ } else { here@ + "/"@ }),
            !texts(closed@).contains(here@),
            forall|k: int| 0 <= k < j ==> !starts(#[trigger] texts(closed@)[k], prefix@),
        decreases closed.len() - j,
    {
        let c = crate::text::chars_of(closed[j].as_str());
        if crate::text::starts_with(c.as_slice(), pc.as_slice()) {
            assert(starts(texts(closed@)[j as int], prefix@));
            return Walk::Descend;
        }
        j = j + 1;
    }
    Walk::Whole
}

} // verus!
