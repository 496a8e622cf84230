//! What this host can enforce, said before the first run: which primitives
//! are present, what each covers, and what porta therefore refuses here, in
//! words or as one JSON object.

use vstd::prelude::*;
use crate::json_text::{json_quoted, push_json_quoted};
use crate::text::{decimal, owned, push_char, push_decimal, push_signed_decimal, push_str, signed_decimal};
use crate::words::join;

verus! {

/// One enforcement primitive and whether this host has it.
pub struct Primitive {
    pub name: String,
    pub covers: String,
    pub present: bool,
    /// What porta does when it is absent.
    pub otherwise: String,
}

/// The host and what it has.
pub struct Report {
    pub platform: String,
    pub primitives: Vec<Primitive>,
}

/// `n` spaces.
pub open spec fn spaces(n: nat) -> Seq<char> {
    Seq::new(n, |i: int| ' ')
}

/// `s` padded with spaces to `width` characters (`{:<width}`).
pub open spec fn padded(s: Seq<char>, width: nat) -> Seq<char> {
    if s.len() < width { s + spaces((width - s.len()) as nat) } else { s }
}

/// One primitive's lines in the report.
pub open spec fn primitive_lines(p: Primitive) -> Seq<char> {
    (if p.present { "ok "@ } else { "-- "@ }) + padded(p.name@, 44) + " "@ + p.covers@ + "\n"@ + if p.present {
        Seq::empty()
    } else {
        "   "@ + p.otherwise@ + "\n"@
    }
}

/// The lines of all the primitives.
pub open spec fn all_lines(ps: Seq<Primitive>) -> Seq<char>
    decreases ps.len(),
{
    if ps.len() == 0 { Seq::empty() } else { all_lines(ps.drop_last()) + primitive_lines(ps.last()) }
}

/// How many primitives are absent.
pub open spec fn missing(ps: Seq<Primitive>) -> nat
    decreases ps.len(),
{
    if ps.len() == 0 {
        0
    } else {
        missing(ps.drop_last()) + if ps.last().present { 0nat } else { 1nat }
    }
}

/// The human report.
pub open spec fn render_text(r: Report) -> Seq<char> {
    "porta on "@ + r.platform@ + "\n\n"@ + all_lines(r.primitives@) + "\n"@ + if missing(r.primitives@) == 0 {
        "Every rule porta can express is enforced on this host.\n"@
    } else {
        "A rule this host cannot enforce refuses the run rather than running with less.\n"@
    }
}

/// One primitive as a JSON object.
pub open spec fn primitive_json(p: Primitive) -> Seq<char> {
    "{\"name\":"@ + json_quoted(p.name@) + ",\"covers\":"@ + json_quoted(p.covers@) + ",\"present\":"@ + (if p.present {
        "true"@
    } else {
        "false"@
    }) + ",\"otherwise\":"@ + json_quoted(p.otherwise@) + "}"@
}

/// The report as one JSON object.
pub open spec fn render_json_text(r: Report) -> Seq<char> {
    "{\"platform\":"@ + json_quoted(r.platform@) + ",\"all_enforced\":"@ + (if missing(r.primitives@) == 0 {
        "true"@
    } else {
        "false"@
    }) + ",\"missing\":"@ + decimal(missing(r.primitives@)) + ",\"primitives\":["@ + join(
        r.primitives@.map_values(|p: Primitive| primitive_json(p)),
        ","@,
    ) + "]}"@
}

proof fn lemma_missing_bound(ps: Seq<Primitive>)
    ensures
        missing(ps) <= ps.len(),
    decreases ps.len(),
{
    if ps.len() > 0 {
        lemma_missing_bound(ps.drop_last());
    }
}

/// The human report: which primitives this host has and what porta refuses.
pub fn wt_sandbox_check(report: &Report) -> (r: String)
    ensures
        r@ == render_text(*report),
{
    let mut text = owned("porta on ");
    push_str(&mut text, report.platform.as_str());
    push_str(&mut text, "\n\n");
    let ghost head = text@;
    let ps = &report.primitives;
    let mut absent: usize = 0;
    let mut i: usize = 0;
    while i < ps.len()
        invariant
            i <= ps@.len(),
            text@ == head + all_lines(ps@.take(i as int)),
            absent == missing(ps@.take(i as int)),
            absent <= i,
        decreases ps.len() - i,
    {
        let p = &ps[i];
        let ghost before = text@;
        if p.present {
            push_str(&mut text, "ok ");
        } else {
            push_str(&mut text, "-- ");
        }
        push_str(&mut text, p.name.as_str());
        let n = p.name.unicode_len();
        let mut k: usize = n;
        while k < 44
            invariant
                n <= k,
                k <= 44 || k == n,
                text@ == before + (if p.present { "ok "@ } else { "-- "@ }) + p.name@ + spaces((k - n) as nat),
            decreases 44 - k,
        {
            push_char(&mut text, ' ');
            assert(spaces((k + 1 - n) as nat) =~= spaces((k - n) as nat).push(' '));
            k = k + 1;
        }
        assert(p.name@ + spaces((k - n) as nat) =~= padded(p.name@, 44));
        push_str(&mut text, " ");
        push_str(&mut text, p.covers.as_str());
        push_str(&mut text, "\n");
        if !p.present {
            push_str(&mut text, "   ");
            push_str(&mut text, p.otherwise.as_str());
            push_str(&mut text, "\n");
            absent = absent + 1;
        }
        proof {
            let t = ps@.take(i + 1);
            assert(t.drop_last() =~= ps@.take(i as int));
            assert(t.last() == ps@[i as int]);
        }
        assert(text@ =~= head + all_lines(ps@.take(i + 1)));
        i = i + 1;
    }
    assert(ps@.take(ps@.len() as int) =~= ps@);
    push_str(&mut text, "\n");
    if absent == 0 {
        push_str(&mut text, "Every rule porta can express is enforced on this host.\n");
    } else {
        push_str(&mut text, "A rule this host cannot enforce refuses the run rather than running with less.\n");
    }
    text
}

/// The same report as one JSON object.
pub fn wt_sandbox_check_json(report: &Report) -> (r: String)
    ensures
        r@ == render_json_text(*report),
{
    let ps = &report.primitives;
    let ghost items = ps@.map_values(|p: Primitive| primitive_json(p));
    let mut list = String::new();
    let mut absent: usize = 0;
    let mut i: usize = 0;
    while i < ps.len()
        invariant
            i <= ps@.len(),
            items == ps@.map_values(|p: Primitive| primitive_json(p)),
            list@ == join(items.take(i as int), ","@),
            absent == missing(ps@.take(i as int)),
            absent <= i,
        decreases ps.len() - i,
    {
        let p = &ps[i];
        let ghost before = list@;
        if i > 0 {
            push_str(&mut list, ",");
        }
        let ghost sep = list@;
        push_str(&mut list, "{\"name\":");
        push_json_quoted(&mut list, p.name.as_str());
        push_str(&mut list, ",\"covers\":");
        push_json_quoted(&mut list, p.covers.as_str());
        push_str(&mut list, ",\"present\":");
        if p.present {
            push_str(&mut list, "true");
        } else {
            push_str(&mut list, "false");
            absent = absent + 1;
        }
        push_str(&mut list, ",\"otherwise\":");
        push_json_quoted(&mut list, p.otherwise.as_str());
        push_str(&mut list, "}");
        proof {
            assert(list@ =~= sep + primitive_json(ps@[i as int]));
            let t = items.take(i + 1);
            assert(t.drop_last() =~= items.take(i as int));
            assert(t.last() == primitive_json(ps@[i as int]));
            if i == 0 {
                assert(t.len() == 1);
                assert(before =~= Seq::<char>::empty());
                assert(sep == before);
            } else {
                reveal_strlit(",");
            }
            assert(list@ =~= join(t, ","@));
            let q = ps@.take(i + 1);
            assert(q.drop_last() =~= ps@.take(i as int));
        }
        i = i + 1;
    }
    assert(items.take(items.len() as int) =~= items);
    assert(ps@.take(ps@.len() as int) =~= ps@);
    let mut text = owned("{\"platform\":");
    push_json_quoted(&mut text, report.platform.as_str());
    push_str(&mut text, ",\"all_enforced\":");
    if absent == 0 {
        push_str(&mut text, "true");
    } else {
        push_str(&mut text, "false");
    }
    push_str(&mut text, ",\"missing\":");
    push_decimal(&mut text, absent as u64);
    push_str(&mut text, ",\"primitives\":[");
    push_str(&mut text, list.as_str());
    push_str(&mut text, "]}");
    text
}

fn primitive(name: &str, covers: &str, present: bool, otherwise: &str) -> (p: Primitive)
    ensures
        p.name@ == name@,
        p.covers@ == covers@,
        p.present == present,
        p.otherwise@ == otherwise@,
{
    Primitive { name: owned(name), covers: owned(covers), present, otherwise: owned(otherwise) }
}

/// What a Linux host has: the Landlock features of its ABI and the seccomp
/// filter, for kernel release `kernel`.
pub fn linux_report(kernel: &str, abi: i64, seccomp: bool) -> (r: Report)
    ensures
        r.platform@ == "Linux "@ + kernel@ + ", Landlock ABI "@ + signed_decimal(abi as int),
        r.primitives@.len() == 6,
        r.primitives@[0].name@ == "Landlock filesystem rules (ABI 1)"@ && r.primitives@[0].present == (abi >= 1),
        r.primitives@[1].name@ == "cross-directory rename and link (ABI 2)"@ && r.primitives@[1].present == (abi >= 2),
        r.primitives@[2].name@ == "truncate as its own right (ABI 3)"@ && r.primitives@[2].present == (abi >= 3),
        r.primitives@[3].name@ == "TCP port rules (ABI 4)"@ && r.primitives@[3].present == (abi >= 4),
        r.primitives@[4].name@ == "signal and abstract-socket scoping (ABI 6)"@ && r.primitives@[4].present == (abi
            >= 6),
        r.primitives@[5].name@ == "seccomp filter"@ && r.primitives@[5].present == seccomp,
        r.primitives@[0].covers@ == "writes outside mounts; reads under --read-policy strict"@,
        r.primitives@[0].otherwise@ == "no native command can run; porta will refuse every run"@,
        r.primitives@[1].covers@ == "mv and ln between directories inside a mount"@,
        r.primitives@[1].otherwise@ == "they fail with EXDEV inside a mount on this kernel"@,
        r.primitives@[2].covers@ == "truncating a file outside every mount is refused"@,
        r.primitives@[2].otherwise@ == "truncate is not separately controlled on this kernel"@,
        r.primitives@[3].covers@ == "--allow-net, --allow-bind, proxy mode"@,
        r.primitives@[3].otherwise@ == "--allow-net and --proxy-allow are refused here"@,
        r.primitives@[4].covers@ == "no signals to, no abstract sockets of, processes outside the sandbox"@,
        r.primitives@[4].otherwise@ == "those two channels stay open on this kernel"@,
        r.primitives@[5].covers@ == "ptrace, process_vm_*, mounts, namespaces, io_uring, raw/packet sockets, MPTCP"@,
        r.primitives@[5].otherwise@ == "porta will refuse every run: the baseline filter is part of the policy"@,
{
    let mut platform = owned("Linux ");
    push_str(&mut platform, kernel);
    push_str(&mut platform, ", Landlock ABI ");
    push_signed_decimal(&mut platform, abi);
    let mut primitives: Vec<Primitive> = Vec::new();
    primitives.push(primitive(
        "Landlock filesystem rules (ABI 1)",
        "writes outside mounts; reads under --read-policy strict",
        abi >= 1,
        "no native command can run; porta will refuse every run",
    ));
    primitives.push(primitive(
        "cross-directory rename and link (ABI 2)",
        "mv and ln between directories inside a mount",
        abi >= 2,
        "they fail with EXDEV inside a mount on this kernel",
    ));
    primitives.push(primitive(
        "truncate as its own right (ABI 3)",
        "truncating a file outside every mount is refused",
        abi >= 3,
        "truncate is not separately controlled on this kernel",
    ));
    primitives.push(primitive(
        "TCP port rules (ABI 4)",
        "--allow-net, --allow-bind, proxy mode",
        abi >= 4,
        "--allow-net and --proxy-allow are refused here",
    ));
    primitives.push(primitive(
        "signal and abstract-socket scoping (ABI 6)",
        "no signals to, no abstract sockets of, processes outside the sandbox",
        abi >= 6,
        "those two channels stay open on this kernel",
    ));
    primitives.push(primitive(
        "seccomp filter",
        "ptrace, process_vm_*, mounts, namespaces, io_uring, raw/packet sockets, MPTCP",
        seccomp,
        "porta will refuse every run: the baseline filter is part of the policy",
    ));
    Report { platform, primitives }
}

/// What a macOS host has: `sandbox-exec` and the unified log, for the system
/// version `version`.
pub fn macos_report(version: &str, sandbox_exec: bool, log: bool) -> (r: Report)
    ensures
        r.platform@ == "macOS "@ + version@,
        r.primitives@.len() == 2,
        r.primitives@[0].name@ == "sandbox-exec (Seatbelt)"@ && r.primitives@[0].present == sandbox_exec,
        r.primitives@[0].covers@ == "writes, reads, TCP ports, Unix sockets, mach services, process info"@,
        r.primitives@[0].otherwise@ == "no native command can run; porta will refuse every run"@,
        r.primitives@[1].name@ == "denial log (unified log)"@ && r.primitives@[1].present == log,
        r.primitives@[1].covers@ == "after a failed run, which flag each refusal would have needed"@,
        r.primitives@[1].otherwise@ == "runs are enforced but refusals are not explained"@,
{
    let mut platform = owned("macOS ");
    push_str(&mut platform, version);
    let mut primitives: Vec<Primitive> = Vec::new();
    primitives.push(primitive(
        "sandbox-exec (Seatbelt)",
        "writes, reads, TCP ports, Unix sockets, mach services, process info",
        sandbox_exec,
        "no native command can run; porta will refuse every run",
    ));
    primitives.push(primitive(
        "denial log (unified log)",
        "after a failed run, which flag each refusal would have needed",
        log,
        "runs are enforced but refusals are not explained",
    ));
    Report { platform, primitives }
}

/// What any other host has: no native sandbox.
pub fn other_report(os: &str) -> (r: Report)
    ensures
        r.platform@ == os@,
        r.primitives@.len() == 1,
        r.primitives@[0].name@ == "native sandbox"@ && !r.primitives@[0].present,
        r.primitives@[0].covers@ == "everything"@,
        r.primitives@[0].otherwise@ == "porta has no enforcement backend on this platform and refuses every native run"@,
{
    let mut primitives: Vec<Primitive> = Vec::new();
    primitives.push(primitive(
        "native sandbox",
        "everything",
        false,
        "porta has no enforcement backend on this platform and refuses every native run",
    ));
    Report { platform: owned(os), primitives }
}

} // verus!
