//! The macOS sandbox profile. `sandbox-exec` takes one profile text, so the
//! whole policy is written here as rule blocks: what may be written, what
//! may be read, which outbound channels are open, and the host facilities a
//! confined command has no business with. Where two rules match one
//! operation the later one wins, so every block is ordered as "grant, then
//! the denies that grant must not reopen". What the filesystem says of a
//! mount (its repository, a socket's resolved path) is the host's.

use vstd::prelude::*;
use crate::denials::{parent_of, path_parent};
use crate::json_text::{parse_string_list, string_list};
use crate::preset::Closures;
use crate::text::{chars_of, contains_text, decimal, ends, flat_map, hex_char, hex_digit, lemma_flat_map_step, occurs_at, owned, parse_u16, push_char, push_decimal, push_str, same_text, starts};
use crate::words::{rsplit_once, rsplit_once_at, texts};

verus! {

// ---------------------------------------------------------------------------
// Profile strings
// ---------------------------------------------------------------------------

/// How one character is written inside a profile string: backslash and
/// quote escaped, an ASCII control character as `\xHH`, anything else as it
/// is. A raw newline would carry a rule onto a second line.
pub open spec fn literal_char(c: char) -> Seq<char> {
    if c == '\\' {
        seq!['\\', '\\']
    } else if c == '"' {
        seq!['\\', '"']
    } else if (c as u32) < 32 || (c as u32) == 127 {
        seq!['\\', 'x', hex_digit((c as u32 / 16) as nat), hex_digit((c as u32 % 16) as nat)]
    } else {
        seq![c]
    }
}

/// `value` as the inside of a profile string.
pub open spec fn profile_literal(value: Seq<char>) -> Seq<char> {
    flat_map(value, |c: char| literal_char(c))
}

fn push_literal_char(out: &mut String, c: char)
    ensures
        final(out)@ == old(out)@ + literal_char(c),
{
    let code = c as u32;
    if c == '\\' {
        push_char(out, '\\');
        push_char(out, '\\');
    } else if c == '"' {
        push_char(out, '\\');
        push_char(out, '"');
    } else if code < 32 || code == 127 {
        push_char(out, '\\');
        push_char(out, 'x');
        push_char(out, hex_char(code / 16));
        push_char(out, hex_char(code % 16));
    } else {
        push_char(out, c);
    }
    assert(final(out)@ =~= old(out)@ + literal_char(c));
}

fn push_literal(out: &mut String, value: &str)
    ensures
        final(out)@ == old(out)@ + profile_literal(value@),
{
    let chars = chars_of(value);
    let ghost start = out@;
    let mut i: usize = 0;
    while i < chars.len()
        invariant
            i <= chars@.len(),
            chars@ == value@,
            out@ == start + profile_literal(chars@.take(i as int)),
        decreases chars.len() - i,
    {
        proof { lemma_flat_map_step(chars@, |c: char| literal_char(c), i as int); }
        push_literal_char(out, chars[i]);
        i = i + 1;
        assert(out@ =~= start + profile_literal(chars@.take(i as int)));
    }
    assert(chars@.take(chars@.len() as int) =~= value@);
}

/// `value` as the inside of a profile string: backslash and quote escaped,
/// and every ASCII control character as `\xHH`, which the profile language
/// reads back as the byte it names.
pub fn sandbox_literal(value: &str) -> (r: String)
    ensures
        r@ == profile_literal(value@),
{
    let mut r = String::new();
    push_literal(&mut r, value);
    assert(r@ =~= profile_literal(value@));
    r
}

/// One rule on one path: `(<head> (<kind> "<path>"))`.
pub open spec fn rule(head: Seq<char>, kind: Seq<char>, path: Seq<char>) -> Seq<char> {
    "("@ + head + " ("@ + kind + " \""@ + profile_literal(path) + "\"))\n"@
}

/// The rule for each path, in order.
pub open spec fn rules_for(head: Seq<char>, kind: Seq<char>, paths: Seq<Seq<char>>) -> Seq<char>
    decreases paths.len(),
{
    if paths.len() == 0 {
        Seq::empty()
    } else {
        rules_for(head, kind, paths.drop_last()) + rule(head, kind, paths.last())
    }
}

fn push_rule(out: &mut String, head: &str, kind: &str, path: &str)
    ensures
        final(out)@ == old(out)@ + rule(head@, kind@, path@),
{
    let ghost start = out@;
    push_str(out, "(");
    push_str(out, head);
    push_str(out, " (");
    push_str(out, kind);
    push_str(out, " \"");
    push_literal(out, path);
    push_str(out, "\"))\n");
    assert(final(out)@ =~= start + rule(head@, kind@, path@));
}

fn push_rules(out: &mut String, head: &str, kind: &str, paths: &[String])
    ensures
        final(out)@ == old(out)@ + rules_for(head@, kind@, texts(paths@)),
{
    let ghost start = out@;
    let mut i: usize = 0;
    while i < paths.len()
        invariant
            i <= paths@.len(),
            out@ == start + rules_for(head@, kind@, texts(paths@).take(i as int)),
        decreases paths.len() - i,
    {
        proof {
            assert(texts(paths@).take(i + 1).drop_last() =~= texts(paths@).take(i as int));
        }
        push_rule(out, head, kind, paths[i].as_str());
        assert(out@ =~= start + rules_for(head@, kind@, texts(paths@).take(i + 1)));
        i = i + 1;
    }
    assert(texts(paths@).take(paths@.len() as int) =~= texts(paths@));
}

fn strs(items: &[&str]) -> (r: Vec<String>)
    ensures
        texts(r@) == items@.map_values(|s: &str| s@),
{
    let mut r: Vec<String> = Vec::new();
    let mut i: usize = 0;
    while i < items.len()
        invariant
            i <= items@.len(),
            texts(r@) == items@.take(i as int).map_values(|s: &str| s@),
        decreases items.len() - i,
    {
        let ghost before = texts(r@);
        r.push(owned(items[i]));
        assert(texts(r@) =~= before.push(items@[i as int]@));
        assert(items@.take(i + 1).map_values(|s: &str| s@) =~= items@.take(i as int).map_values(|s: &str| s@).push(
            items@[i as int]@,
        ));
        i = i + 1;
    }
    assert(items@.take(items@.len() as int) =~= items@);
    r
}

// ---------------------------------------------------------------------------
// Fixed roots
// ---------------------------------------------------------------------------

/// Writable on every run; `/tmp` is reached through `/private/tmp`, so the
/// profile names both spellings.
pub open spec fn profile_writable() -> Seq<Seq<char>> {
    seq!["/tmp"@, "/private/tmp"@, "/dev"@]
}

/// The platform's own directories, readable under a strict read policy: a
/// command cannot start without its interpreter, the shared library cache
/// and the system configuration.
pub open spec fn profile_readable() -> Seq<Seq<char>> {
    seq!["/usr"@, "/System"@, "/bin"@, "/sbin"@, "/private/etc"@, "/private/var/select"@]
}

/// Every root writable on every run.
pub fn always_writable() -> (r: Vec<String>)
    ensures
        texts(r@) == profile_writable(),
{
    let roots: [&str; 3] = ["/tmp", "/private/tmp", "/dev"];
    let r = strs(roots.as_slice());
    assert(roots@.map_values(|s: &str| s@) =~= profile_writable());
    r
}

fn readable_system() -> (r: Vec<String>)
    ensures
        texts(r@) == profile_readable(),
{
    let roots: [&str; 6] = ["/usr", "/System", "/bin", "/sbin", "/private/etc", "/private/var/select"];
    let r = strs(roots.as_slice());
    assert(roots@.map_values(|s: &str| s@) =~= profile_readable());
    r
}

/// A mount without its `:ro` mark.
pub open spec fn granted(dir: Seq<char>) -> Seq<char> {
    if ends(dir, ":ro"@) { dir.subrange(0, dir.len() - 3) } else { dir }
}

fn granted_dir(dir: &str) -> (r: String)
    ensures
        r@ == granted(dir@),
{
    let chars = chars_of(dir);
    let ro = chars_of(":ro");
    proof {
        reveal_strlit(":ro");
    }
    if chars.len() >= 3 && crate::text::ends_with(chars.as_slice(), ro.as_slice()) {
        crate::text::slice_text(chars.as_slice(), 0, chars.len() - 3)
    } else {
        owned(dir)
    }
}

fn granted_dirs(dirs: &[String]) -> (r: Vec<String>)
    ensures
        texts(r@) == texts(dirs@).map_values(|d: Seq<char>| granted(d)),
{
    let mut r: Vec<String> = Vec::new();
    let mut i: usize = 0;
    while i < dirs.len()
        invariant
            i <= dirs@.len(),
            texts(r@) == texts(dirs@).take(i as int).map_values(|d: Seq<char>| granted(d)),
        decreases dirs.len() - i,
    {
        let ghost before = texts(r@);
        r.push(granted_dir(dirs[i].as_str()));
        assert(texts(r@) =~= before.push(granted(dirs@[i as int]@)));
        assert(texts(dirs@).take(i + 1).map_values(|d: Seq<char>| granted(d)) =~= texts(dirs@).take(i as int).map_values(
            |d: Seq<char>| granted(d),
        ).push(granted(dirs@[i as int]@)));
        i = i + 1;
    }
    assert(texts(dirs@).take(dirs@.len() as int) =~= texts(dirs@));
    r
}

/// Everything a strict read policy leaves readable: the granted mounts, the
/// roots always writable and the platform's own directories.
pub fn readable_roots(allowed_dirs: &[String]) -> (r: Vec<String>)
    ensures
        texts(r@) == texts(allowed_dirs@).map_values(|d: Seq<char>| granted(d)) + profile_writable()
            + profile_readable(),
{
    let mut r = granted_dirs(allowed_dirs);
    let mut always = always_writable();
    let mut system = readable_system();
    let ghost a = texts(r@);
    r.append(&mut always);
    assert(texts(r@) =~= a + profile_writable());
    let ghost b = texts(r@);
    r.append(&mut system);
    assert(texts(r@) =~= b + profile_readable());
    r
}

// ---------------------------------------------------------------------------
// Writes
// ---------------------------------------------------------------------------

/// The ancestors of a relative name, nearest first, down to the last
/// non-empty one.
pub open spec fn ancestors(p: Seq<char>) -> Seq<Seq<char>>
    decreases p.len(),
{
    match path_parent(p) {
        Some(q) => if 0 < q.len() < p.len() { seq![q] + ancestors(q) } else { Seq::empty() },
        None => Seq::empty(),
    }
}

/// `dir/name` for each name.
pub open spec fn under_mount(dir: Seq<char>, names: Seq<Seq<char>>) -> Seq<Seq<char>> {
    names.map_values(|n: Seq<char>| dir + "/"@ + n)
}

/// The unlink pins of the ancestors of every protected name.
pub open spec fn pinned_text(dir: Seq<char>, protect: Seq<Seq<char>>) -> Seq<char>
    decreases protect.len(),
{
    if protect.len() == 0 {
        Seq::empty()
    } else {
        pinned_text(dir, protect.drop_last()) + rules_for(
            "deny file-write-unlink"@,
            "literal"@,
            under_mount(dir, ancestors(protect.last())),
        )
    }
}

/// The repository's hooks and config, closed to writes.
pub open spec fn repo_denies(repo: Option<Seq<char>>) -> Seq<char> {
    match repo {
        Some(g) => rule("deny file-write*"@, "subpath"@, g + "/hooks"@) + rule("deny file-write*"@, "literal"@, g + "/config"@),
        None => Seq::empty(),
    }
}

/// The repository and the mount's `.git`, pinned against unlink and rename.
pub open spec fn repo_pins(dir: Seq<char>, repo: Option<Seq<char>>) -> Seq<char> {
    match repo {
        Some(g) => rule("deny file-write-unlink"@, "literal"@, g) + rule("deny file-write-unlink"@, "literal"@, dir + "/.git"@),
        None => Seq::empty(),
    }
}

/// What stays closed inside one writable mount: each protected name, the
/// repository's hooks and config, and, against unlink and rename, the mount
/// root, every ancestor of a protected name, and the repository.
pub open spec fn protection_text(dir: Seq<char>, protect: Seq<Seq<char>>, repo: Option<Seq<char>>) -> Seq<char> {
    rules_for("deny file-write*"@, "subpath"@, under_mount(dir, protect)) + repo_denies(repo) + rule(
        "deny file-write-unlink"@,
        "literal"@,
        dir,
    ) + pinned_text(dir, protect) + repo_pins(dir, repo)
}

fn joined(dir: &str, name: &str) -> (r: String)
    ensures
        r@ == dir@ + "/"@ + name@,
{
    let mut r = owned(dir);
    push_str(&mut r, "/");
    push_str(&mut r, name);
    r
}

fn push_repo_denies(out: &mut String, repo: &Option<String>)
    ensures
        final(out)@ == old(out)@ + repo_denies(match repo {
            Some(g) => Some(g@),
            None => None,
        }),
{
    match repo {
        Some(g) => {
            let ghost start = out@;
            push_rule(out, "deny file-write*", "subpath", joined(g.as_str(), "hooks").as_str());
            push_rule(out, "deny file-write*", "literal", joined(g.as_str(), "config").as_str());
            proof {
                reveal_strlit("/hooks");
                reveal_strlit("/config");
                reveal_strlit("/");
                reveal_strlit("hooks");
                reveal_strlit("config");
                assert(g@ + "/"@ + "hooks"@ =~= g@ + "/hooks"@);
                assert(g@ + "/"@ + "config"@ =~= g@ + "/config"@);
                assert(final(out)@ =~= start + repo_denies(Some(g@)));
            }
        },
        None => {
            assert(final(out)@ =~= old(out)@ + Seq::<char>::empty());
        },
    }
}

fn push_repo_pins(out: &mut String, dir: &str, repo: &Option<String>)
    ensures
        final(out)@ == old(out)@ + repo_pins(dir@, match repo {
            Some(g) => Some(g@),
            None => None,
        }),
{
    match repo {
        Some(g) => {
            let ghost start = out@;
            push_rule(out, "deny file-write-unlink", "literal", g.as_str());
            push_rule(out, "deny file-write-unlink", "literal", joined(dir, ".git").as_str());
            proof {
                reveal_strlit("/.git");
                reveal_strlit("/");
                reveal_strlit(".git");
                assert(dir@ + "/"@ + ".git"@ =~= dir@ + "/.git"@);
                assert(final(out)@ =~= start + repo_pins(dir@, Some(g@)));
            }
        },
        None => {
            assert(final(out)@ =~= old(out)@ + Seq::<char>::empty());
        },
    }
}

fn push_ancestor_pins(out: &mut String, dir: &str, name: &str)
    ensures
        final(out)@ == old(out)@ + rules_for("deny file-write-unlink"@, "literal"@, under_mount(dir@, ancestors(name@))),
{
    let ghost start = out@;
    let ghost done: Seq<Seq<char>> = Seq::empty();
    let mut cur = owned(name);
    loop
        invariant
            ancestors(name@) == done + ancestors(cur@),
            out@ == start + rules_for("deny file-write-unlink"@, "literal"@, under_mount(dir@, done)),
        ensures
            out@ == start + rules_for("deny file-write-unlink"@, "literal"@, under_mount(dir@, ancestors(name@))),
        decreases cur@.len(),
    {
        match parent_of(cur.as_str()) {
            Some(q) => {
                if q.unicode_len() == 0 {
                    assert(ancestors(cur@) =~= Seq::<Seq<char>>::empty());
                    assert(done + ancestors(cur@) =~= done);
                    break;
                }
                let path = joined(dir, q.as_str());
                push_rule(out, "deny file-write-unlink", "literal", path.as_str());
                proof {
                    assert(ancestors(cur@) == seq![q@] + ancestors(q@));
                    let d2 = done.push(q@);
                    assert(under_mount(dir@, d2).drop_last() =~= under_mount(dir@, done));
                    assert(d2 + ancestors(q@) =~= done + (seq![q@] + ancestors(q@)));
                    done = d2;
                }
                cur = q;
            },
            None => {
                assert(ancestors(cur@) =~= Seq::<Seq<char>>::empty());
                assert(done + ancestors(cur@) =~= done);
                break;
            },
        }
    }
}

fn push_protections(out: &mut String, dir: &str, protect: &[String], repo: &Option<String>)
    ensures
        final(out)@ == old(out)@ + protection_text(dir@, texts(protect@), match repo {
            Some(g) => Some(g@),
            None => None,
        }),
{
    let ghost start = out@;
    let ghost names = texts(protect@);
    let ghost r = match repo {
        Some(g) => Some(g@),
        None => None,
    };
    let mut i: usize = 0;
    while i < protect.len()
        invariant
            i <= protect@.len(),
            names == texts(protect@),
            out@ == start + rules_for("deny file-write*"@, "subpath"@, under_mount(dir@, names.take(i as int))),
        decreases protect.len() - i,
    {
        let path = joined(dir, protect[i].as_str());
        push_rule(out, "deny file-write*", "subpath", path.as_str());
        assert(under_mount(dir@, names.take(i + 1)).drop_last() =~= under_mount(dir@, names.take(i as int)));
        i = i + 1;
    }
    assert(names.take(protect@.len() as int) =~= names);
    let ghost a = out@;
    assert(a == start + rules_for("deny file-write*"@, "subpath"@, under_mount(dir@, names)));
    push_repo_denies(out, repo);
    let ghost b = out@;
    push_rule(out, "deny file-write-unlink", "literal", dir);
    let ghost c = out@;
    let mut j: usize = 0;
    while j < protect.len()
        invariant
            j <= protect@.len(),
            names == texts(protect@),
            out@ == c + pinned_text(dir@, names.take(j as int)),
        decreases protect.len() - j,
    {
        proof {
            assert(names.take(j + 1).drop_last() =~= names.take(j as int));
        }
        push_ancestor_pins(out, dir, protect[j].as_str());
        assert(out@ =~= c + pinned_text(dir@, names.take(j + 1)));
        j = j + 1;
    }
    assert(names.take(protect@.len() as int) =~= names);
    let ghost d = out@;
    push_repo_pins(out, dir, repo);
    proof {
        let p1 = rules_for("deny file-write*"@, "subpath"@, under_mount(dir@, names));
        let p2 = repo_denies(r);
        let p3 = rule("deny file-write-unlink"@, "literal"@, dir@);
        let p4 = pinned_text(dir@, names);
        let p5 = repo_pins(dir@, r);
        assert(final(out)@ =~= start + (p1 + p2 + p3 + p4 + p5));
    }
}

/// The writable mounts, each with its repository, in order.
pub open spec fn writable_pairs(dirs: Seq<Seq<char>>, repos: Seq<Option<Seq<char>>>) -> Seq<(Seq<char>, Option<Seq<char>>)>
    decreases dirs.len(),
{
    if dirs.len() == 0 || repos.len() == 0 {
        Seq::empty()
    } else if ends(dirs.last(), ":ro"@) {
        writable_pairs(dirs.drop_last(), repos.drop_last())
    } else {
        writable_pairs(dirs.drop_last(), repos.drop_last()).push((dirs.last(), repos.last()))
    }
}

/// The protections of each writable mount, in order.
pub open spec fn protections_text(pairs: Seq<(Seq<char>, Option<Seq<char>>)>, protect: Seq<Seq<char>>) -> Seq<char>
    decreases pairs.len(),
{
    if pairs.len() == 0 {
        Seq::empty()
    } else {
        protections_text(pairs.drop_last(), protect) + protection_text(pairs.last().0, protect, pairs.last().1)
    }
}

/// Writes denied, reopened for the writable mounts and the roots always
/// writable, then closed again where a grant must not reach.
pub open spec fn write_text(dirs: Seq<Seq<char>>, repos: Seq<Option<Seq<char>>>, protect: Seq<Seq<char>>) -> Seq<char> {
    let pairs = writable_pairs(dirs, repos);
    "(deny file-write*)\n"@ + rules_for("allow file-write*"@, "subpath"@, pairs.map_values(
        |p: (Seq<char>, Option<Seq<char>>)| p.0,
    )) + rules_for("allow file-write*"@, "subpath"@, profile_writable()) + protections_text(pairs, protect)
}

/// The repositories as text.
pub open spec fn repo_texts(repos: Seq<Option<String>>) -> Seq<Option<Seq<char>>> {
    repos.map_values(
        |r: Option<String>|
            match r {
                Some(g) => Some(g@),
                None => None,
            },
    )
}

fn push_write_rules(out: &mut String, dirs: &[String], repos: &[Option<String>], protect: &[String])
    requires
        repos@.len() == dirs@.len(),
    ensures
        final(out)@ == old(out)@ + write_text(texts(dirs@), repo_texts(repos@), texts(protect@)),
{
    let ghost start = out@;
    let ghost ds = texts(dirs@);
    let ghost rs = repo_texts(repos@);
    let mut writable: Vec<String> = Vec::new();
    let mut their_repos: Vec<Option<String>> = Vec::new();
    let mut i: usize = 0;
    while i < dirs.len()
        invariant
            i <= dirs@.len(),
            repos@.len() == dirs@.len(),
            ds == texts(dirs@),
            rs == repo_texts(repos@),
            writable@.len() == their_repos@.len(),
            writable_pairs(ds.take(i as int), rs.take(i as int)) == texts(writable@).zip_with(repo_texts(their_repos@)),
        decreases dirs.len() - i,
    {
        proof {
            assert(ds.take(i + 1).drop_last() =~= ds.take(i as int));
            assert(rs.take(i + 1).drop_last() =~= rs.take(i as int));
        }
        let ro = chars_of(":ro");
        let d = chars_of(dirs[i].as_str());
        if !crate::text::ends_with(d.as_slice(), ro.as_slice()) {
            writable.push(owned(dirs[i].as_str()));
            let r = match &repos[i] {
                Some(g) => Some(owned(g.as_str())),
                None => None,
            };
            their_repos.push(r);
            assert(texts(writable@).zip_with(repo_texts(their_repos@)) =~= writable_pairs(
                ds.take(i as int),
                rs.take(i as int),
            ).push((ds[i as int], rs[i as int])));
        }
        i = i + 1;
    }
    assert(ds.take(dirs@.len() as int) =~= ds);
    assert(rs.take(dirs@.len() as int) =~= rs);
    let ghost pairs = writable_pairs(ds, rs);
    assert(pairs.map_values(|p: (Seq<char>, Option<Seq<char>>)| p.0) =~= texts(writable@));
    push_str(out, "(deny file-write*)\n");
    push_rules(out, "allow file-write*", "subpath", writable.as_slice());
    let always = always_writable();
    push_rules(out, "allow file-write*", "subpath", always.as_slice());
    let ghost before = out@;
    let mut k: usize = 0;
    while k < writable.len()
        invariant
            k <= writable@.len(),
            writable@.len() == their_repos@.len(),
            pairs == texts(writable@).zip_with(repo_texts(their_repos@)),
            out@ == before + protections_text(pairs.take(k as int), texts(protect@)),
        decreases writable.len() - k,
    {
        proof {
            assert(pairs.take(k + 1).drop_last() =~= pairs.take(k as int));
            assert(pairs[k as int] == (texts(writable@)[k as int], repo_texts(their_repos@)[k as int]));
        }
        push_protections(out, writable[k].as_str(), protect, &their_repos[k]);
        assert(out@ =~= before + protections_text(pairs.take(k + 1), texts(protect@)));
        k = k + 1;
    }
    assert(pairs.take(writable@.len() as int) =~= pairs);
    assert(final(out)@ =~= start + write_text(ds, rs, texts(protect@)));
}

// ---------------------------------------------------------------------------
// Reads
// ---------------------------------------------------------------------------

/// The ancestors of a mount up to the root, nearest first: the root itself
/// and an empty path are not among them.
pub open spec fn upward(p: Seq<char>) -> Seq<Seq<char>>
    decreases p.len(),
{
    match path_parent(p) {
        Some(q) => if q.len() > 0 && q != "/"@ && q.len() < p.len() { seq![q] + upward(q) } else { Seq::empty() },
        None => Seq::empty(),
    }
}

/// The metadata grants on the ancestors of each granted mount.
pub open spec fn metadata_text(dirs: Seq<Seq<char>>) -> Seq<char>
    decreases dirs.len(),
{
    if dirs.len() == 0 {
        Seq::empty()
    } else {
        metadata_text(dirs.drop_last()) + rules_for("allow file-read-metadata"@, "literal"@, upward(dirs.last()))
    }
}

/// The single paths a strict read policy grants as themselves.
pub open spec fn readable_literals_text() -> Seq<char> {
    "(allow file-read* (literal \"/\"))\n"@ + "(allow file-read* (literal \"/tmp\"))\n"@
        + "(allow file-read* (literal \"/etc\"))\n"@ + "(allow file-read* (literal \"/var\"))\n"@
}

/// Reads denied, then reopened for the granted mounts, the roots always
/// writable and the platform's own directories, the loader's few single
/// paths, and the metadata of each mount's ancestors.
pub open spec fn confined_text(dirs: Seq<Seq<char>>) -> Seq<char> {
    let g = dirs.map_values(|d: Seq<char>| granted(d));
    "(deny file-read*)\n"@ + rules_for("allow file-read*"@, "subpath"@, g) + rules_for(
        "allow file-read*"@,
        "subpath"@,
        profile_writable(),
    ) + rules_for("allow file-read*"@, "subpath"@, profile_readable()) + readable_literals_text() + metadata_text(g)
}

/// The read rules of a read policy: confined under `strict`, none else.
pub open spec fn read_text(dirs: Seq<Seq<char>>, read_policy: Seq<char>) -> Seq<char> {
    if read_policy == "strict"@ { confined_text(dirs) } else { Seq::empty() }
}

fn push_upward(out: &mut String, dir: &str)
    ensures
        final(out)@ == old(out)@ + rules_for("allow file-read-metadata"@, "literal"@, upward(dir@)),
{
    let ghost start = out@;
    let ghost done: Seq<Seq<char>> = Seq::empty();
    let mut cur = owned(dir);
    loop
        invariant
            upward(dir@) == done + upward(cur@),
            out@ == start + rules_for("allow file-read-metadata"@, "literal"@, done),
        ensures
            out@ == start + rules_for("allow file-read-metadata"@, "literal"@, upward(dir@)),
        decreases cur@.len(),
    {
        match parent_of(cur.as_str()) {
            Some(q) => {
                if q.unicode_len() == 0 || same_text(q.as_str(), "/") {
                    assert(upward(cur@) =~= Seq::<Seq<char>>::empty());
                    assert(done + upward(cur@) =~= done);
                    break;
                }
                push_rule(out, "allow file-read-metadata", "literal", q.as_str());
                proof {
                    assert(upward(cur@) == seq![q@] + upward(q@));
                    let d2 = done.push(q@);
                    assert(d2.drop_last() =~= done);
                    assert(d2 + upward(q@) =~= done + (seq![q@] + upward(q@)));
                    done = d2;
                }
                cur = q;
            },
            None => {
                assert(upward(cur@) =~= Seq::<Seq<char>>::empty());
                assert(done + upward(cur@) =~= done);
                break;
            },
        }
    }
}

fn push_read_rules(out: &mut String, dirs: &[String], read_policy: &str)
    ensures
        final(out)@ == old(out)@ + read_text(texts(dirs@), read_policy@),
{
    if !same_text(read_policy, "strict") {
        assert(final(out)@ =~= old(out)@ + Seq::<char>::empty());
        return;
    }
    let ghost start = out@;
    let g = granted_dirs(dirs);
    push_str(out, "(deny file-read*)\n");
    push_rules(out, "allow file-read*", "subpath", g.as_slice());
    let always = always_writable();
    push_rules(out, "allow file-read*", "subpath", always.as_slice());
    let system = readable_system();
    push_rules(out, "allow file-read*", "subpath", system.as_slice());
    push_str(out, "(allow file-read* (literal \"/\"))\n");
    push_str(out, "(allow file-read* (literal \"/tmp\"))\n");
    push_str(out, "(allow file-read* (literal \"/etc\"))\n");
    push_str(out, "(allow file-read* (literal \"/var\"))\n");
    let ghost before = out@;
    let mut i: usize = 0;
    while i < g.len()
        invariant
            i <= g@.len(),
            out@ == before + metadata_text(texts(g@).take(i as int)),
        decreases g.len() - i,
    {
        proof {
            assert(texts(g@).take(i + 1).drop_last() =~= texts(g@).take(i as int));
        }
        push_upward(out, g[i].as_str());
        assert(out@ =~= before + metadata_text(texts(g@).take(i + 1)));
        i = i + 1;
    }
    assert(texts(g@).take(g@.len() as int) =~= texts(g@));
    assert(final(out)@ =~= start + confined_text(texts(dirs@)));
}

/// What the preset and the caller close to reads, after every grant, and
/// the keychains of other users, the system's trust roots excepted.
pub open spec fn closed_read_text(deny_read: Seq<Seq<char>>) -> Seq<char> {
    rules_for("deny file-read*"@, "subpath"@, deny_read) + "(deny file-read* (subpath \"/Library/Keychains\"))\n"@
        + "(allow file-read* (literal \"/Library/Keychains/System.keychain\"))\n"@
}

fn push_closed_read_rules(out: &mut String, deny_read: &[String])
    ensures
        final(out)@ == old(out)@ + closed_read_text(texts(deny_read@)),
{
    let ghost start = out@;
    push_rules(out, "deny file-read*", "subpath", deny_read);
    push_str(out, "(deny file-read* (subpath \"/Library/Keychains\"))\n");
    push_str(out, "(allow file-read* (literal \"/Library/Keychains/System.keychain\"))\n");
    assert(final(out)@ =~= start + closed_read_text(texts(deny_read@)));
}

// ---------------------------------------------------------------------------
// The network
// ---------------------------------------------------------------------------

/// `--no-net`: no outbound, no listening, no inbound, no resolver.
pub open spec fn no_network_text() -> Seq<char> {
    "(deny network-outbound)\n"@ + "(deny network-bind)\n"@ + "(deny network-inbound)\n"@
}

/// The outbound grant of one `--allow-net` entry `host:port`: none where it
/// has no colon or its port is neither `*` nor a port above 0; loopback
/// addresses as `localhost`, any other as `*`. Only the port is filtered.
pub open spec fn host_grant(entry: Seq<char>) -> Seq<char> {
    match rsplit_once(entry, ":"@) {
        None => Seq::empty(),
        Some(h) => if h.1 != "*"@ && !(parse_u16(h.1) is Some && parse_u16(h.1).unwrap() > 0) {
            Seq::empty()
        } else {
            "(allow network-outbound (remote tcp \""@ + (if h.0 == "127.0.0.1"@ || h.0 == "localhost"@ {
                "localhost"@
            } else {
                "*"@
            }) + ":"@ + h.1 + "\"))\n"@
        },
    }
}

/// The grants of every entry, in order.
pub open spec fn host_grants(entries: Seq<Seq<char>>) -> Seq<char>
    decreases entries.len(),
{
    if entries.len() == 0 {
        Seq::empty()
    } else {
        host_grants(entries.drop_last()) + host_grant(entries.last())
    }
}

/// A port the command may listen on.
pub open spec fn bind_grant(port: u16) -> Seq<char> {
    "(allow network-bind (local tcp \"*:"@ + decimal(port as nat) + "\"))\n"@
        + "(allow network-inbound (local tcp \"*:"@ + decimal(port as nat) + "\"))\n"@
}

/// The grants of every listening port, in order.
pub open spec fn bind_grants(ports: Seq<u16>) -> Seq<char>
    decreases ports.len(),
{
    if ports.len() == 0 {
        Seq::empty()
    } else {
        bind_grants(ports.drop_last()) + bind_grant(ports.last())
    }
}

/// The network is open until `--allow-net` names a port; then everything
/// else is closed, the resolver reopened unless the proxy is the only
/// egress, each named port granted, and listening only on the bind ports.
pub open spec fn network_text(allowed_net: Seq<Seq<char>>, proxy: bool, bind_ports: Seq<u16>) -> Seq<char> {
    if allowed_net.len() == 0 {
        Seq::empty()
    } else {
        no_network_text() + (if !proxy {
            "(allow network-outbound (literal \"/private/var/run/mDNSResponder\"))\n"@
        } else {
            Seq::empty()
        }) + host_grants(allowed_net) + bind_grants(bind_ports)
    }
}

fn push_host_grant(out: &mut String, entry: &str)
    ensures
        final(out)@ == old(out)@ + host_grant(entry@),
{
    let chars = chars_of(entry);
    let colon = chars_of(":");
    match rsplit_once_at(chars.as_slice(), colon.as_slice()) {
        None => {
            assert(final(out)@ =~= old(out)@ + Seq::<char>::empty());
        },
        Some((address, port)) => {
            let star = chars_of("*");
            let any_port = crate::text::slices_equal(port.as_slice(), star.as_slice());
            let numbered = match crate::text::parse_port(port.as_slice()) {
                Some(p) => p > 0,
                None => false,
            };
            if !any_port && !numbered {
                assert(final(out)@ =~= old(out)@ + Seq::<char>::empty());
                return;
            }
            let ghost start = out@;
            let a = crate::text::string_of(address.as_slice());
            let local = same_text(a.as_str(), "127.0.0.1") || same_text(a.as_str(), "localhost");
            push_str(out, "(allow network-outbound (remote tcp \"");
            if local {
                push_str(out, "localhost");
            } else {
                push_str(out, "*");
            }
            push_str(out, ":");
            push_str(out, crate::text::string_of(port.as_slice()).as_str());
            push_str(out, "\"))\n");
            assert(final(out)@ =~= start + host_grant(entry@));
        },
    }
}

fn push_network_rules(out: &mut String, allowed_net: &[String], proxy: bool, bind_ports: &[u16])
    ensures
        final(out)@ == old(out)@ + network_text(texts(allowed_net@), proxy, bind_ports@),
{
    if allowed_net.len() == 0 {
        assert(final(out)@ =~= old(out)@ + Seq::<char>::empty());
        return;
    }
    let ghost start = out@;
    push_str(out, "(deny network-outbound)\n");
    push_str(out, "(deny network-bind)\n");
    push_str(out, "(deny network-inbound)\n");
    if !proxy {
        push_str(out, "(allow network-outbound (literal \"/private/var/run/mDNSResponder\"))\n");
    }
    let ghost head = out@;
    assert(head =~= start + no_network_text() + (if !proxy {
        "(allow network-outbound (literal \"/private/var/run/mDNSResponder\"))\n"@
    } else {
        Seq::<char>::empty()
    }));
    let mut i: usize = 0;
    while i < allowed_net.len()
        invariant
            i <= allowed_net@.len(),
            out@ == head + host_grants(texts(allowed_net@).take(i as int)),
        decreases allowed_net.len() - i,
    {
        proof {
            assert(texts(allowed_net@).take(i + 1).drop_last() =~= texts(allowed_net@).take(i as int));
        }
        push_host_grant(out, allowed_net[i].as_str());
        assert(out@ =~= head + host_grants(texts(allowed_net@).take(i + 1)));
        i = i + 1;
    }
    assert(texts(allowed_net@).take(allowed_net@.len() as int) =~= texts(allowed_net@));
    let ghost mid = out@;
    let mut j: usize = 0;
    while j < bind_ports.len()
        invariant
            j <= bind_ports@.len(),
            out@ == mid + bind_grants(bind_ports@.take(j as int)),
        decreases bind_ports.len() - j,
    {
        proof {
            assert(bind_ports@.take(j + 1).drop_last() =~= bind_ports@.take(j as int));
        }
        let p = bind_ports[j];
        push_str(out, "(allow network-bind (local tcp \"*:");
        push_decimal(out, p as u64);
        push_str(out, "\"))\n");
        push_str(out, "(allow network-inbound (local tcp \"*:");
        push_decimal(out, p as u64);
        push_str(out, "\"))\n");
        assert(out@ =~= mid + bind_grants(bind_ports@.take(j + 1)));
        j = j + 1;
    }
    assert(bind_ports@.take(bind_ports@.len() as int) =~= bind_ports@);
    assert(final(out)@ =~= start + network_text(texts(allowed_net@), proxy, bind_ports@));
}

// ---------------------------------------------------------------------------
// Unix sockets
// ---------------------------------------------------------------------------

/// A socket pattern inside a profile regex: its quotes escaped, its
/// backslashes left as the regex's own.
pub open spec fn quote_escaped(pattern: Seq<char>) -> Seq<char> {
    flat_map(pattern, |c: char| if c == '"' { seq!['\\', '"'] } else { seq![c] })
}

/// The connect denies of the socket patterns, in order.
pub open spec fn socket_denies(patterns: Seq<Seq<char>>) -> Seq<char>
    decreases patterns.len(),
{
    if patterns.len() == 0 {
        Seq::empty()
    } else {
        socket_denies(patterns.drop_last()) + "(deny network-outbound (regex #\""@ + quote_escaped(patterns.last())
            + "\"))\n"@
    }
}

/// The reopening of one socket path: as given, and as the kernel resolves
/// it where that differs.
pub open spec fn socket_allow(path: Seq<char>, resolved: Option<Seq<char>>) -> Seq<char> {
    rule("allow network-outbound"@, "literal"@, path) + match resolved {
        Some(r) => if r != path { rule("allow network-outbound"@, "literal"@, r) } else { Seq::empty() },
        None => Seq::empty(),
    }
}

/// The reopening of every socket path, in order.
pub open spec fn socket_allows(paths: Seq<Seq<char>>, resolved: Seq<Option<Seq<char>>>) -> Seq<char>
    decreases paths.len(),
{
    if paths.len() == 0 || resolved.len() == 0 {
        Seq::empty()
    } else {
        socket_allows(paths.drop_last(), resolved.drop_last()) + socket_allow(paths.last(), resolved.last())
    }
}

fn push_quote_escaped(out: &mut String, pattern: &str)
    ensures
        final(out)@ == old(out)@ + quote_escaped(pattern@),
{
    let chars = chars_of(pattern);
    let ghost start = out@;
    let mut i: usize = 0;
    while i < chars.len()
        invariant
            i <= chars@.len(),
            chars@ == pattern@,
            out@ == start + quote_escaped(chars@.take(i as int)),
        decreases chars.len() - i,
    {
        proof { lemma_flat_map_step(chars@, |c: char| if c == '"' { seq!['\\', '"'] } else { seq![c] }, i as int); }
        if chars[i] == '"' {
            push_char(out, '\\');
            push_char(out, '"');
        } else {
            push_char(out, chars[i]);
        }
        i = i + 1;
        assert(out@ =~= start + quote_escaped(chars@.take(i as int)));
    }
    assert(chars@.take(chars@.len() as int) =~= pattern@);
}

fn push_socket_rules(out: &mut String, deny_unix: &[String], allowed_unix: &[String], resolved: &[Option<String>])
    requires
        resolved@.len() == allowed_unix@.len(),
    ensures
        final(out)@ == old(out)@ + socket_denies(texts(deny_unix@)) + socket_allows(texts(allowed_unix@), repo_texts(resolved@)),
{
    let ghost start = out@;
    let mut i: usize = 0;
    while i < deny_unix.len()
        invariant
            i <= deny_unix@.len(),
            out@ == start + socket_denies(texts(deny_unix@).take(i as int)),
        decreases deny_unix.len() - i,
    {
        proof {
            assert(texts(deny_unix@).take(i + 1).drop_last() =~= texts(deny_unix@).take(i as int));
        }
        push_str(out, "(deny network-outbound (regex #\"");
        push_quote_escaped(out, deny_unix[i].as_str());
        push_str(out, "\"))\n");
        assert(out@ =~= start + socket_denies(texts(deny_unix@).take(i + 1)));
        i = i + 1;
    }
    assert(texts(deny_unix@).take(deny_unix@.len() as int) =~= texts(deny_unix@));
    let ghost mid = out@;
    let ghost rs = repo_texts(resolved@);
    let mut j: usize = 0;
    while j < allowed_unix.len()
        invariant
            j <= allowed_unix@.len(),
            resolved@.len() == allowed_unix@.len(),
            rs == repo_texts(resolved@),
            out@ == mid + socket_allows(texts(allowed_unix@).take(j as int), rs.take(j as int)),
        decreases allowed_unix.len() - j,
    {
        proof {
            assert(texts(allowed_unix@).take(j + 1).drop_last() =~= texts(allowed_unix@).take(j as int));
            assert(rs.take(j + 1).drop_last() =~= rs.take(j as int));
        }
        let ghost before = out@;
        push_rule(out, "allow network-outbound", "literal", allowed_unix[j].as_str());
        match &resolved[j] {
            Some(r) => {
                if !same_text(r.as_str(), allowed_unix[j].as_str()) {
                    push_rule(out, "allow network-outbound", "literal", r.as_str());
                }
            },
            None => {},
        }
        assert(out@ =~= before + socket_allow(allowed_unix@[j as int]@, rs[j as int]));
        assert(out@ =~= mid + socket_allows(texts(allowed_unix@).take(j + 1), rs.take(j + 1)));
        j = j + 1;
    }
    assert(texts(allowed_unix@).take(allowed_unix@.len() as int) =~= texts(allowed_unix@));
    assert(rs.take(allowed_unix@.len() as int) =~= rs);
}

// ---------------------------------------------------------------------------
// Host facilities
// ---------------------------------------------------------------------------

/// Host facilities a confined command has no reason to reach, closed in
/// every mode: other processes' arguments, the login Keychain through its
/// daemons, Launch Services, mounting and shares, Apple Events, raw disks
/// and packet capture, two `fcntl` commands and anonymous XPC services.
pub open spec fn host_text() -> Seq<char> {
    "(deny sysctl-read (sysctl-name-regex #\"procargs\"))\n"@ + "(deny process-info-pidinfo)\n"@
        + "(allow process-info-pidinfo (target same-sandbox))\n"@ + "(deny lsopen)\n"@ + "(deny file-mount)\n"@
        + "(deny file-unmount)\n"@ + "(deny file-read* file-write* (regex #\"^/dev/r?disk\") (regex #\"^/dev/bpf\"))\n"@
        + "(deny system-fcntl (fcntl-command 80 110))\n"@ + "(deny mach-lookup (xpc-service-name-prefix \"\"))\n"@
        + "(deny mach-lookup (global-name \"com.apple.securityd.xpc\"))\n"@
        + "(deny mach-lookup (global-name \"com.apple.secd\"))\n"@
        + "(deny mach-lookup (global-name \"com.apple.security.agent\"))\n"@
        + "(deny mach-lookup (global-name \"com.apple.SecurityServer\"))\n"@
        + "(deny mach-lookup (global-name \"com.apple.lsd.mapdb\"))\n"@
        + "(deny mach-lookup (global-name \"com.apple.lsd.modifydb\"))\n"@
        + "(deny mach-lookup (global-name \"com.apple.quarantine-resolver\"))\n"@
        + "(deny mach-lookup (global-name \"com.apple.DiskArbitration.diskarbitrationd\"))\n"@
        + "(deny mach-lookup (global-name \"com.apple.NetAuthAgent\"))\n"@
        + "(deny mach-lookup (global-name \"com.apple.NetAuthSysAgent\"))\n"@
        + "(deny mach-lookup (global-name \"com.apple.appleeventsd\"))\n"@
}

fn push_host_rules(out: &mut String)
    ensures
        final(out)@ == old(out)@ + host_text(),
{
    let ghost start = out@;
    push_str(out, "(deny sysctl-read (sysctl-name-regex #\"procargs\"))\n");
    push_str(out, "(deny process-info-pidinfo)\n");
    push_str(out, "(allow process-info-pidinfo (target same-sandbox))\n");
    push_str(out, "(deny lsopen)\n");
    push_str(out, "(deny file-mount)\n");
    push_str(out, "(deny file-unmount)\n");
    push_str(out, "(deny file-read* file-write* (regex #\"^/dev/r?disk\") (regex #\"^/dev/bpf\"))\n");
    push_str(out, "(deny system-fcntl (fcntl-command 80 110))\n");
    push_str(out, "(deny mach-lookup (xpc-service-name-prefix \"\"))\n");
    push_str(out, "(deny mach-lookup (global-name \"com.apple.securityd.xpc\"))\n");
    push_str(out, "(deny mach-lookup (global-name \"com.apple.secd\"))\n");
    push_str(out, "(deny mach-lookup (global-name \"com.apple.security.agent\"))\n");
    push_str(out, "(deny mach-lookup (global-name \"com.apple.SecurityServer\"))\n");
    push_str(out, "(deny mach-lookup (global-name \"com.apple.lsd.mapdb\"))\n");
    push_str(out, "(deny mach-lookup (global-name \"com.apple.lsd.modifydb\"))\n");
    push_str(out, "(deny mach-lookup (global-name \"com.apple.quarantine-resolver\"))\n");
    push_str(out, "(deny mach-lookup (global-name \"com.apple.DiskArbitration.diskarbitrationd\"))\n");
    push_str(out, "(deny mach-lookup (global-name \"com.apple.NetAuthAgent\"))\n");
    push_str(out, "(deny mach-lookup (global-name \"com.apple.NetAuthSysAgent\"))\n");
    push_str(out, "(deny mach-lookup (global-name \"com.apple.appleeventsd\"))\n");
    assert(final(out)@ =~= start + host_text());
}

// ---------------------------------------------------------------------------
// Tagging
// ---------------------------------------------------------------------------

/// Where the first line of `s` ends: the index of its first `\n`, or its
/// length.
pub open spec fn line_end(s: Seq<char>) -> int
    decreases s.len(),
{
    if s.len() == 0 {
        0
    } else if s[0] == '\n' {
        0
    } else {
        1 + line_end(s.drop_first())
    }
}

/// A line ends within the text.
pub proof fn lemma_line_end(s: Seq<char>)
    ensures
        0 <= line_end(s) <= s.len(),
    decreases s.len(),
{
    if s.len() > 0 && s[0] != '\n' {
        lemma_line_end(s.drop_first());
    }
}

proof fn lemma_line_end_at(s: Seq<char>, n: int)
    requires
        0 <= n <= s.len(),
        forall|k: int| 0 <= k < n ==> s[k] != '\n',
        n == s.len() || s[n] == '\n',
    ensures
        line_end(s) == n,
    decreases n,
{
    if n > 0 {
        assert forall|k: int| 0 <= k < n - 1 implies s.drop_first()[k] != '\n' by {
            assert(s.drop_first()[k] == s[k + 1]);
        }
        lemma_line_end_at(s.drop_first(), n - 1);
    }
}

/// What a deny rule of one run carries as its message.
pub open spec fn message_text(tag: Seq<char>) -> Seq<char> {
    " (with message \"porta:"@ + tag + "\"))\n"@
}

/// One line of the profile: a deny rule with the message just before its
/// closing parenthesis, any other line as it is; each ends with `\n`.
pub open spec fn tag_line(line: Seq<char>, message: Seq<char>) -> Seq<char> {
    if starts(line, "(deny "@) && line.len() > 0 && line.last() == ')' {
        line.drop_last() + message
    } else {
        line + "\n"@
    }
}

/// Every line of `s`, split at `\n` alone, tagged.
pub open spec fn tag_lines(s: Seq<char>, message: Seq<char>) -> Seq<char>
    decreases s.len(),
{
    if s.len() == 0 {
        Seq::empty()
    } else {
        let n = line_end(s);
        proof {
            lemma_line_end(s);
        }
        if n < s.len() {
            tag_line(s.take(n), message) + tag_lines(s.skip(n + 1), message)
        } else {
            tag_line(s, message)
        }
    }
}

/// The profile with this run's tag as every deny rule's message; as it is
/// when there is no tag.
pub open spec fn tagged_text(profile: Seq<char>, tag: Seq<char>) -> Seq<char> {
    if tag.len() == 0 { profile } else { tag_lines(profile, message_text(tag)) }
}

/// The tag every deny rule of one run carries, as it appears in the
/// kernel's denial log.
pub fn message_tag(run_tag: &str) -> (r: String)
    ensures
        r@ == "porta:"@ + run_tag@,
{
    let mut r = owned("porta:");
    push_str(&mut r, run_tag);
    r
}

fn push_tag_line(out: &mut String, line: &[char], message: &str)
    ensures
        final(out)@ == old(out)@ + tag_line(line@, message@),
{
    let deny = chars_of("(deny ");
    if crate::text::starts_with(line, deny.as_slice()) && line.len() > 0 && line[line.len() - 1] == ')' {
        push_str(out, crate::text::slice_text(line, 0, line.len() - 1).as_str());
        push_str(out, message);
        assert(line@.subrange(0, line@.len() - 1) =~= line@.drop_last());
    } else {
        push_str(out, crate::text::string_of(line).as_str());
        push_str(out, "\n");
    }
}

/// Every deny rule with this run's tag as its message. A rule is one line
/// and ends with its closing parenthesis, so the message goes just before
/// it; the profile is split at `\n` alone, so a `\r` in a path stays where
/// it is.
pub fn tagged(profile: &str, tag: &str) -> (r: String)
    ensures
        r@ == tagged_text(profile@, tag@),
{
    if tag.unicode_len() == 0 {
        return owned(profile);
    }
    let mut message = owned(" (with message \"porta:");
    push_str(&mut message, tag);
    push_str(&mut message, "\"))\n");
    assert(message@ =~= message_text(tag@));
    let chars = chars_of(profile);
    let n = chars.len();
    let mut out = String::new();
    let mut i: usize = 0;
    assert(chars@.skip(0) =~= chars@);
    while i < n
        invariant
            n == chars@.len(),
            i <= n,
            out@ + tag_lines(chars@.skip(i as int), message@) == tag_lines(chars@, message@),
        decreases n - i,
    {
        let mut j: usize = i;
        while j < n && chars[j] != '\n'
            invariant
                n == chars@.len(),
                i <= j <= n,
                forall|k: int| i <= k < j ==> chars@[k] != '\n',
            decreases n - j,
        {
            j = j + 1;
        }
        let ghost rest = chars@.skip(i as int);
        proof {
            assert forall|k: int| 0 <= k < j - i implies rest[k] != '\n' by {
                assert(rest[k] == chars@[i + k]);
            }
            lemma_line_end_at(rest, j - i);
        }
        let line = crate::text::slice_chars(chars.as_slice(), i, j);
        let ghost before = out@;
        push_tag_line(&mut out, line.as_slice(), message.as_str());
        if j < n {
            proof {
                assert(rest.take(j - i) =~= line@);
                assert(rest.skip(j - i + 1) =~= chars@.skip(j + 1));
                assert(tag_lines(rest, message@) == tag_line(line@, message@) + tag_lines(chars@.skip(j + 1), message@));
                assert(out@ + tag_lines(chars@.skip(j + 1), message@) =~= before + tag_lines(rest, message@));
            }
            i = j + 1;
        } else {
            proof {
                assert(rest =~= line@);
                assert(chars@.skip(n as int) =~= Seq::<char>::empty());
                assert(out@ + tag_lines(chars@.skip(n as int), message@) =~= before + tag_lines(rest, message@));
            }
            i = n;
        }
    }
    assert(chars@.skip(n as int) =~= Seq::<char>::empty());
    assert(out@ =~= tag_lines(chars@, message@));
    out
}

// ---------------------------------------------------------------------------
// The whole profile
// ---------------------------------------------------------------------------

/// One request's policy inputs, as the profile is built from them.
pub struct ProfileRequest {
    pub allowed_dirs: Vec<String>,
    /// The repository directory each mount belongs to, if it has one.
    pub repositories: Vec<Option<String>>,
    pub allowed_net: Vec<String>,
    pub read_policy: String,
    /// Whether the loopback endpoint in `allowed_net` is the only egress.
    pub proxy: bool,
    /// `--no-net`: every network operation denied, the resolver included.
    pub no_network: bool,
    /// TCP ports the command may listen on.
    pub bind_ports: Vec<u16>,
    /// Unix socket paths reopened for connects.
    pub allowed_unix: Vec<String>,
    /// Each such path as the kernel resolves it, where it exists.
    pub resolved_unix: Vec<Option<String>>,
    /// What this run closes beyond its grants.
    pub closures: Closures,
    /// This run's tag; empty for a profile that is only being shown.
    pub tag: String,
}

/// The lists a request's inputs must line up in.
pub open spec fn aligned(q: ProfileRequest) -> bool {
    q.repositories@.len() == q.allowed_dirs@.len() && q.resolved_unix@.len() == q.allowed_unix@.len()
}

/// The whole profile for one request, before tagging.
pub open spec fn untagged_text(q: ProfileRequest) -> Seq<char> {
    "(version 1)\n(allow default)\n"@ + write_text(texts(q.allowed_dirs@), repo_texts(q.repositories@), texts(
        q.closures.protect@,
    )) + read_text(texts(q.allowed_dirs@), q.read_policy@) + closed_read_text(texts(q.closures.deny_read@)) + (if q.no_network {
        no_network_text()
    } else {
        network_text(texts(q.allowed_net@), q.proxy, q.bind_ports@)
    }) + socket_denies(texts(q.closures.deny_unix@)) + socket_allows(texts(q.allowed_unix@), repo_texts(q.resolved_unix@))
        + host_text()
}

/// The whole profile for one request: everything `sandbox-exec` applies.
pub open spec fn profile_text(q: ProfileRequest) -> Seq<char> {
    tagged_text(untagged_text(q), q.tag@)
}

/// The whole profile for one request: writes, reads, closed reads, the
/// network, Unix sockets and host facilities, in that order, every deny
/// rule tagged with the run.
#[verifier::spinoff_prover]
#[verifier::rlimit(50)]
pub fn build_sandbox_profile(q: &ProfileRequest) -> (r: String)
    requires
        aligned(*q),
    ensures
        r@ == profile_text(*q),
{
    let mut profile = owned("(version 1)\n(allow default)\n");
    let ghost p0 = profile@;
    push_write_rules(&mut profile, q.allowed_dirs.as_slice(), q.repositories.as_slice(), q.closures.protect.as_slice());
    let ghost p1 = profile@;
    push_read_rules(&mut profile, q.allowed_dirs.as_slice(), q.read_policy.as_str());
    let ghost p2 = profile@;
    push_closed_read_rules(&mut profile, q.closures.deny_read.as_slice());
    let ghost p3 = profile@;
    if q.no_network {
        push_str(&mut profile, "(deny network-outbound)\n");
        push_str(&mut profile, "(deny network-bind)\n");
        push_str(&mut profile, "(deny network-inbound)\n");
        assert(profile@ =~= p3 + no_network_text());
    } else {
        push_network_rules(&mut profile, q.allowed_net.as_slice(), q.proxy, q.bind_ports.as_slice());
    }
    let ghost p4 = profile@;
    push_socket_rules(&mut profile, q.closures.deny_unix.as_slice(), q.allowed_unix.as_slice(), q.resolved_unix.as_slice());
    let ghost p5 = profile@;
    push_host_rules(&mut profile);
    proof {
        let w = write_text(texts(q.allowed_dirs@), repo_texts(q.repositories@), texts(q.closures.protect@));
        let rd = read_text(texts(q.allowed_dirs@), q.read_policy@);
        let cl = closed_read_text(texts(q.closures.deny_read@));
        let nt = if q.no_network {
            no_network_text()
        } else {
            network_text(texts(q.allowed_net@), q.proxy, q.bind_ports@)
        };
        let so = socket_denies(texts(q.closures.deny_unix@)) + socket_allows(texts(q.allowed_unix@), repo_texts(q.resolved_unix@));
        assert(p1 == p0 + w);
        assert(p2 == p1 + rd);
        assert(p3 == p2 + cl);
        assert(p4 == p3 + nt);
        assert(p5 =~= p4 + so);
        assert(profile@ == p5 + host_text());
        assert(untagged_text(*q) =~= p0 + w + rd + cl + nt + so + host_text());
        assert(profile@ =~= untagged_text(*q));
    }
    tagged(profile.as_str(), q.tag.as_str())
}

/// The request a profile that is only shown is built from: no listening
/// port, no Unix socket reopened, no tag.
pub open spec fn shown_request(q: ProfileRequest, dirs: Seq<String>, repos: Seq<Option<String>>, net: Seq<String>, read_policy: Seq<char>, closures: Closures) -> bool {
    &&& q.allowed_dirs@ == dirs
    &&& q.repositories@ == repos
    &&& q.allowed_net@ == net
    &&& q.read_policy@ == read_policy
    &&& !q.no_network
    &&& q.bind_ports@.len() == 0
    &&& q.allowed_unix@.len() == 0
    &&& q.resolved_unix@.len() == 0
    &&& q.closures == closures
    &&& q.tag@.len() == 0
}

/// The profile the older calling shape gives: mounts, ports, a read policy
/// and the proxy flag, the closures resolved from the default preset.
pub fn build_sandbox_profile_rs(
    allowed_dirs: Vec<String>,
    repositories: Vec<Option<String>>,
    allowed_net: Vec<String>,
    read_policy: &str,
    proxy: bool,
    closures: Closures,
) -> (r: String)
    requires
        repositories@.len() == allowed_dirs@.len(),
    ensures
        exists|q: ProfileRequest| shown_request(q, allowed_dirs@, repositories@, allowed_net@, read_policy@, closures)
            && q.proxy == proxy && r@ == profile_text(q),
{
    let ghost c = closures;
    let q = ProfileRequest {
        allowed_dirs,
        repositories,
        allowed_net,
        read_policy: owned(read_policy),
        proxy,
        no_network: false,
        bind_ports: Vec::new(),
        allowed_unix: Vec::new(),
        resolved_unix: Vec::new(),
        closures,
        tag: String::new(),
    };
    let r = build_sandbox_profile(&q);
    assert(q.bind_ports@.len() == 0);
    assert(q.allowed_unix@.len() == 0);
    assert(q.resolved_unix@.len() == 0);
    assert(q.tag@.len() == 0);
    assert(q.closures == c);
    assert(shown_request(q, q.allowed_dirs@, q.repositories@, q.allowed_net@, read_policy@, c));
    r
}

/// The mounts and ports a profile is shown for, given as two JSON lists;
/// nothing unless both parse.
pub fn profile_lists(dirs_json: &str, net_json: &str) -> (r: Option<(Vec<String>, Vec<String>)>)
    ensures
        match (string_list(dirs_json@), string_list(net_json@)) {
            (Some(d), Some(n)) => r is Some && texts(r->Some_0.0@) == d && texts(r->Some_0.1@) == n,
            _ => r is None,
        },
{
    let dirs = parse_string_list(dirs_json);
    let net = parse_string_list(net_json);
    match (dirs, net) {
        (Ok(d), Ok(n)) => Some((d, n)),
        _ => None,
    }
}

/// The profile a given set of mounts, ports and read policy produces, for
/// `porta` to show: `lists` are the mounts and ports when both were given
/// as JSON lists (see `profile_lists`), each mount with its repository in
/// `repositories`; a profile that denies everything when they were not.
pub fn wt_sandbox_profile(
    lists: Option<(Vec<String>, Vec<String>)>,
    repositories: Vec<Option<String>>,
    read_policy: &str,
    closures: Closures,
) -> (r: String)
    requires
        lists is Some ==> repositories@.len() == lists->Some_0.0@.len(),
    ensures
        lists is None ==> r@ == "(version 1)\n(deny default)\n"@,
        lists is Some ==> exists|q: ProfileRequest| shown_request(q, lists->Some_0.0@, repositories@, lists->Some_0.1@, read_policy@, closures)
            && !q.proxy && r@ == profile_text(q),
{
    match lists {
        Some((dirs, net)) => build_sandbox_profile_rs(dirs, repositories, net, read_policy, false, closures),
        None => owned("(version 1)\n(deny default)\n"),
    }
}

// ---------------------------------------------------------------------------
// Laws
// ---------------------------------------------------------------------------

/// A mount marked `:ro` is never granted writes: every mount the write
/// block reopens is one not marked read-only, and one of those granted.
pub proof fn law_read_only_mounts_are_not_writable(dirs: Seq<Seq<char>>, repos: Seq<Option<Seq<char>>>, k: int)
    requires
        dirs.len() == repos.len(),
        0 <= k < writable_pairs(dirs, repos).len(),
    ensures
        !ends(writable_pairs(dirs, repos)[k].0, ":ro"@),
        dirs.contains(writable_pairs(dirs, repos)[k].0),
    decreases dirs.len(),
{
    if dirs.len() > 0 {
        let rest = writable_pairs(dirs.drop_last(), repos.drop_last());
        if k < rest.len() {
            law_read_only_mounts_are_not_writable(dirs.drop_last(), repos.drop_last(), k);
            let j = choose|j: int| 0 <= j < dirs.drop_last().len() && dirs.drop_last()[j] == rest[k].0;
            assert(dirs[j] == rest[k].0);
        } else {
            assert(dirs[dirs.len() - 1] == dirs.last());
        }
    }
}

/// A profile that is only shown carries no tag, and is exactly the rules.
pub proof fn law_an_untagged_profile_is_the_rules(q: ProfileRequest)
    requires
        q.tag@.len() == 0,
    ensures
        profile_text(q) == untagged_text(q),
{
}

/// A text made of whole lines: empty, or ending with `\n`.
pub open spec fn whole_lines(s: Seq<char>) -> bool {
    s.len() == 0 || s.last() == '\n'
}

proof fn lemma_whole_join(a: Seq<char>, b: Seq<char>)
    requires
        whole_lines(a),
        whole_lines(b),
    ensures
        whole_lines(a + b),
{
    if b.len() == 0 {
        assert(a + b =~= a);
    }
}

proof fn lemma_rule_whole(head: Seq<char>, kind: Seq<char>, path: Seq<char>)
    ensures
        whole_lines(rule(head, kind, path)),
        rule(head, kind, path).len() > 0,
{
    reveal_strlit("\"))\n");
    let r = rule(head, kind, path);
    assert(r.last() == "\"))\n"@.last());
}

proof fn lemma_rules_whole(head: Seq<char>, kind: Seq<char>, paths: Seq<Seq<char>>)
    ensures
        whole_lines(rules_for(head, kind, paths)),
    decreases paths.len(),
{
    if paths.len() > 0 {
        lemma_rules_whole(head, kind, paths.drop_last());
        lemma_rule_whole(head, kind, paths.last());
        lemma_whole_join(rules_for(head, kind, paths.drop_last()), rule(head, kind, paths.last()));
    }
}

proof fn lemma_pinned_whole(dir: Seq<char>, protect: Seq<Seq<char>>)
    ensures
        whole_lines(pinned_text(dir, protect)),
    decreases protect.len(),
{
    if protect.len() > 0 {
        lemma_pinned_whole(dir, protect.drop_last());
        let names = under_mount(dir, ancestors(protect.last()));
        lemma_rules_whole("deny file-write-unlink"@, "literal"@, names);
        lemma_whole_join(pinned_text(dir, protect.drop_last()), rules_for("deny file-write-unlink"@, "literal"@, names));
    }
}

proof fn lemma_protection_whole(dir: Seq<char>, protect: Seq<Seq<char>>, repo: Option<Seq<char>>)
    ensures
        whole_lines(protection_text(dir, protect, repo)),
{
    let a = rules_for("deny file-write*"@, "subpath"@, under_mount(dir, protect));
    let b = repo_denies(repo);
    let c = rule("deny file-write-unlink"@, "literal"@, dir);
    let d = pinned_text(dir, protect);
    let e = repo_pins(dir, repo);
    lemma_rules_whole("deny file-write*"@, "subpath"@, under_mount(dir, protect));
    match repo {
        Some(g) => {
            lemma_rule_whole("deny file-write*"@, "subpath"@, g + "/hooks"@);
            lemma_rule_whole("deny file-write*"@, "literal"@, g + "/config"@);
            lemma_whole_join(rule("deny file-write*"@, "subpath"@, g + "/hooks"@), rule("deny file-write*"@, "literal"@, g + "/config"@));
            lemma_rule_whole("deny file-write-unlink"@, "literal"@, g);
            lemma_rule_whole("deny file-write-unlink"@, "literal"@, dir + "/.git"@);
            lemma_whole_join(rule("deny file-write-unlink"@, "literal"@, g), rule("deny file-write-unlink"@, "literal"@, dir + "/.git"@));
        },
        None => {},
    }
    lemma_rule_whole("deny file-write-unlink"@, "literal"@, dir);
    lemma_pinned_whole(dir, protect);
    lemma_whole_join(a, b);
    lemma_whole_join(a + b, c);
    lemma_whole_join(a + b + c, d);
    lemma_whole_join(a + b + c + d, e);
}

proof fn lemma_protections_whole(pairs: Seq<(Seq<char>, Option<Seq<char>>)>, protect: Seq<Seq<char>>)
    ensures
        whole_lines(protections_text(pairs, protect)),
    decreases pairs.len(),
{
    if pairs.len() > 0 {
        lemma_protections_whole(pairs.drop_last(), protect);
        lemma_protection_whole(pairs.last().0, protect, pairs.last().1);
        lemma_whole_join(protections_text(pairs.drop_last(), protect), protection_text(pairs.last().0, protect, pairs.last().1));
    }
}

proof fn lemma_write_whole(dirs: Seq<Seq<char>>, repos: Seq<Option<Seq<char>>>, protect: Seq<Seq<char>>)
    ensures
        whole_lines(write_text(dirs, repos, protect)),
{
    reveal_strlit("(deny file-write*)\n");
    let pairs = writable_pairs(dirs, repos);
    let head = "(deny file-write*)\n"@;
    let mounts = pairs.map_values(|p: (Seq<char>, Option<Seq<char>>)| p.0);
    assert(head.last() == '\n');
    lemma_rules_whole("allow file-write*"@, "subpath"@, mounts);
    lemma_rules_whole("allow file-write*"@, "subpath"@, profile_writable());
    lemma_protections_whole(pairs, protect);
    let a = rules_for("allow file-write*"@, "subpath"@, mounts);
    let b = rules_for("allow file-write*"@, "subpath"@, profile_writable());
    lemma_whole_join(head, a);
    lemma_whole_join(head + a, b);
    lemma_whole_join(head + a + b, protections_text(pairs, protect));
}

proof fn lemma_metadata_whole(dirs: Seq<Seq<char>>)
    ensures
        whole_lines(metadata_text(dirs)),
    decreases dirs.len(),
{
    if dirs.len() > 0 {
        lemma_metadata_whole(dirs.drop_last());
        lemma_rules_whole("allow file-read-metadata"@, "literal"@, upward(dirs.last()));
        lemma_whole_join(metadata_text(dirs.drop_last()), rules_for("allow file-read-metadata"@, "literal"@, upward(dirs.last())));
    }
}

proof fn lemma_read_whole(dirs: Seq<Seq<char>>, read_policy: Seq<char>)
    ensures
        whole_lines(read_text(dirs, read_policy)),
{
    if read_policy == "strict"@ {
        reveal_strlit("(deny file-read*)\n");
        reveal_strlit("(allow file-read* (literal \"/var\"))\n");
        let g = dirs.map_values(|d: Seq<char>| granted(d));
        let head = "(deny file-read*)\n"@;
        assert(head.last() == '\n');
        let a = rules_for("allow file-read*"@, "subpath"@, g);
        let b = rules_for("allow file-read*"@, "subpath"@, profile_writable());
        let c = rules_for("allow file-read*"@, "subpath"@, profile_readable());
        let d = readable_literals_text();
        let v = "(allow file-read* (literal \"/var\"))\n"@;
        assert(d.last() == v.last());
        lemma_rules_whole("allow file-read*"@, "subpath"@, g);
        lemma_rules_whole("allow file-read*"@, "subpath"@, profile_writable());
        lemma_rules_whole("allow file-read*"@, "subpath"@, profile_readable());
        lemma_metadata_whole(g);
        lemma_whole_join(head, a);
        lemma_whole_join(head + a, b);
        lemma_whole_join(head + a + b, c);
        lemma_whole_join(head + a + b + c, d);
        lemma_whole_join(head + a + b + c + d, metadata_text(g));
    }
}

/// `t` stands in `s` at `i`, at the start of a line.
pub open spec fn line_at(s: Seq<char>, t: Seq<char>, i: int) -> bool {
    occurs_at(s, t, i) && (i == 0 || s[i - 1] == '\n')
}

/// `t` stands in `s` at the start of some line.
pub open spec fn has_line(s: Seq<char>, t: Seq<char>) -> bool {
    exists|i: int| line_at(s, t, i)
}

/// A line of the middle piece is a line of the whole, where what comes
/// before it is whole lines.
proof fn lemma_line_within(a: Seq<char>, b: Seq<char>, c: Seq<char>, t: Seq<char>)
    requires
        has_line(b, t),
        whole_lines(a),
    ensures
        has_line(a + b + c, t),
{
    let i = choose|i: int| line_at(b, t, i);
    let s = a + b + c;
    assert(s.subrange(a.len() + i, a.len() + i + t.len()) =~= b.subrange(i, i + t.len()));
    if i > 0 {
        assert(s[a.len() + i - 1] == b[i - 1]);
    } else if a.len() > 0 {
        assert(s[a.len() - 1] == a.last());
    }
    assert(line_at(s, t, a.len() + i));
}

/// The rules for a list of paths hold the rule of each path as a line.
proof fn lemma_rules_hold_each(head: Seq<char>, kind: Seq<char>, paths: Seq<Seq<char>>, k: int)
    requires
        0 <= k < paths.len(),
    ensures
        has_line(rules_for(head, kind, paths), rule(head, kind, paths[k])),
    decreases paths.len(),
{
    let before = rules_for(head, kind, paths.drop_last());
    let last = rule(head, kind, paths.last());
    if k == paths.len() - 1 {
        assert(line_at(last, last, 0)) by {
            assert(last.subrange(0, last.len() as int) =~= last);
        }
        lemma_rules_whole(head, kind, paths.drop_last());
        lemma_line_within(before, last, Seq::empty(), last);
        assert(before + last + Seq::<char>::empty() =~= rules_for(head, kind, paths));
    } else {
        lemma_rules_hold_each(head, kind, paths.drop_last(), k);
        assert(paths.drop_last()[k] == paths[k]);
        lemma_line_within(Seq::empty(), before, last, rule(head, kind, paths[k]));
        assert(Seq::<char>::empty() + before + last =~= rules_for(head, kind, paths));
    }
}

/// No line ends before the first `\n`.
proof fn lemma_line_end_before(s: Seq<char>, j: int)
    requires
        0 <= j < s.len(),
        s[j] == '\n',
    ensures
        line_end(s) <= j,
    decreases j,
{
    if s[0] != '\n' {
        assert(s.drop_first()[j - 1] == s[j]);
        lemma_line_end_before(s.drop_first(), j - 1);
    }
}

/// A profile string spans no line break: every control character is
/// escaped.
proof fn lemma_literal_one_line(v: Seq<char>)
    ensures
        forall|k: int| 0 <= k < profile_literal(v).len() ==> profile_literal(v)[k] != '\n',
    decreases v.len(),
{
    if v.len() > 0 {
        lemma_literal_one_line(v.drop_last());
        let c = v.last();
        let f = |c: char| literal_char(c);
        assert(profile_literal(v) == profile_literal(v.drop_last()) + literal_char(c));
        let t = literal_char(c);
        if c == '\\' || c == '"' {
        } else if (c as u32) < 32 || (c as u32) == 127 {
            let hi = (c as u32 / 16) as nat;
            let lo = (c as u32 % 16) as nat;
            assert(hex_digit(hi) != '\n' && hex_digit(lo) != '\n');
        } else {
            assert(c != '\n');
        }
        assert forall|k: int| 0 <= k < profile_literal(v).len() implies profile_literal(v)[k] != '\n' by {
            if k >= profile_literal(v.drop_last()).len() {
                assert(profile_literal(v)[k] == t[k - profile_literal(v.drop_last()).len()]);
            }
        }
    }
}

/// Tagging keeps each line of the profile as one tagged line.
proof fn lemma_tagging_keeps_each_line(s: Seq<char>, line: Seq<char>, message: Seq<char>)
    requires
        has_line(s, line + "\n"@),
        forall|k: int| 0 <= k < line.len() ==> line[k] != '\n',
    ensures
        contains_text(tag_lines(s, message), tag_line(line, message)),
    decreases s.len(),
{
    reveal_strlit("\n");
    let t = line + "\n"@;
    let i = choose|i: int| line_at(s, t, i);
    let n = line_end(s);
    lemma_line_end(s);
    if i == 0 {
        assert(s.subrange(0, t.len() as int) =~= t);
        assert forall|k: int| 0 <= k < line.len() implies s[k] != '\n' by {
            assert(s[k] == t[k]);
        }
        assert(s[line.len() as int] == t[line.len() as int]);
        lemma_line_end_at(s, line.len() as int);
        assert(s.take(n) =~= line);
        let out = tag_line(line, message);
        assert(out.subrange(0, out.len() as int) =~= out);
        assert(contains_text(out, out)) by {
            assert(occurs_at(out, out, 0));
        }
        lemma_contains_within(Seq::empty(), out, tag_lines(s.skip(n + 1), message), out);
        assert(Seq::<char>::empty() + out + tag_lines(s.skip(n + 1), message) =~= tag_lines(s, message));
    } else {
        lemma_line_end_before(s, i - 1);
        let rest = s.skip(n + 1);
        let j = i - n - 1;
        assert(rest.subrange(j, j + t.len()) =~= s.subrange(i, i + t.len()));
        if j > 0 {
            assert(rest[j - 1] == s[i - 1]);
        }
        assert(line_at(rest, t, j));
        lemma_tagging_keeps_each_line(rest, line, message);
        lemma_contains_within(tag_line(s.take(n), message), tag_lines(rest, message), Seq::empty(), tag_line(line, message));
        assert(tag_line(s.take(n), message) + tag_lines(rest, message) + Seq::<char>::empty() =~= tag_lines(s, message));
    }
}

/// Text found in the middle piece is found in the whole.
proof fn lemma_contains_within(a: Seq<char>, b: Seq<char>, c: Seq<char>, t: Seq<char>)
    requires
        contains_text(b, t),
    ensures
        contains_text(a + b + c, t),
{
    let i = choose|i: int| occurs_at(b, t, i);
    assert((a + b + c).subrange(a.len() + i, a.len() + i + t.len()) =~= b.subrange(i, i + t.len()));
    assert(occurs_at(a + b + c, t, a.len() + i));
}

/// The closed-read rule of a path is one line.
proof fn lemma_closed_read_rule(p: Seq<char>)
    ensures
        rule("deny file-read*"@, "subpath"@, p) == "(deny file-read* (subpath \""@ + profile_literal(p) + "\"))"@ + "\n"@,
        forall|j: int|
            0 <= j < ("(deny file-read* (subpath \""@ + profile_literal(p) + "\"))"@).len()
                ==> ("(deny file-read* (subpath \""@ + profile_literal(p) + "\"))"@)[j] != '\n',
        starts("(deny file-read* (subpath \""@ + profile_literal(p) + "\"))"@, "(deny "@),
        ("(deny file-read* (subpath \""@ + profile_literal(p) + "\"))"@).len() > 0,
        ("(deny file-read* (subpath \""@ + profile_literal(p) + "\"))"@).last() == ')',
        ("(deny file-read* (subpath \""@ + profile_literal(p) + "\"))"@).drop_last()
            == "(deny file-read* (subpath \""@ + profile_literal(p) + "\")"@,
{
    reveal_strlit("\")");
    reveal_strlit("(deny ");
    reveal_strlit("deny file-read*");
    reveal_strlit("subpath");
    reveal_strlit("(");
    reveal_strlit(" (");
    reveal_strlit(" \"");
    reveal_strlit("\"))\n");
    reveal_strlit("\"))");
    reveal_strlit("\n");
    reveal_strlit("(deny file-read* (subpath \"");
    let a = "(deny file-read* (subpath \""@;
    let line = a + profile_literal(p) + "\"))"@;
    assert("("@ + "deny file-read*"@ + " ("@ + "subpath"@ + " \""@ =~= a);
    assert("\"))\n"@ =~= "\"))"@ + "\n"@);
    assert(rule("deny file-read*"@, "subpath"@, p) =~= line + "\n"@);
    lemma_literal_one_line(p);
    assert forall|j: int| 0 <= j < line.len() implies line[j] != '\n' by {
        if a.len() <= j < a.len() + profile_literal(p).len() {
            assert(line[j] == profile_literal(p)[j - a.len()]);
        }
    }
    assert(line.subrange(0, 6) =~= "(deny "@);
    assert(line.drop_last() =~= a + profile_literal(p) + "\")"@);
}

/// The closed-read rule of each `deny_read` path is a line of the profile
/// before tagging.
proof fn lemma_closed_read_line(q: ProfileRequest, k: int)
    requires
        0 <= k < q.closures.deny_read@.len(),
    ensures
        has_line(untagged_text(q), rule("deny file-read*"@, "subpath"@, q.closures.deny_read@[k]@)),
{
    reveal_strlit("(version 1)\n(allow default)\n");
    let paths = texts(q.closures.deny_read@);
    let rl = rule("deny file-read*"@, "subpath"@, paths[k]);
    assert(paths[k] == q.closures.deny_read@[k]@);
    lemma_rules_hold_each("deny file-read*"@, "subpath"@, paths, k);
    let keychains = "(deny file-read* (subpath \"/Library/Keychains\"))\n"@
        + "(allow file-read* (literal \"/Library/Keychains/System.keychain\"))\n"@;
    let rules = rules_for("deny file-read*"@, "subpath"@, paths);
    lemma_line_within(Seq::empty(), rules, keychains, rl);
    let cl = closed_read_text(paths);
    assert(Seq::<char>::empty() + rules + keychains =~= cl);
    let head = "(version 1)\n(allow default)\n"@;
    let w = write_text(texts(q.allowed_dirs@), repo_texts(q.repositories@), texts(q.closures.protect@));
    let rd = read_text(texts(q.allowed_dirs@), q.read_policy@);
    assert(head.last() == '\n');
    lemma_write_whole(texts(q.allowed_dirs@), repo_texts(q.repositories@), texts(q.closures.protect@));
    lemma_read_whole(texts(q.allowed_dirs@), q.read_policy@);
    lemma_whole_join(head, w);
    lemma_whole_join(head + w, rd);
    let before = head + w + rd;
    let after = (if q.no_network {
        no_network_text()
    } else {
        network_text(texts(q.allowed_net@), q.proxy, q.bind_ports@)
    }) + socket_denies(texts(q.closures.deny_unix@)) + socket_allows(texts(q.allowed_unix@), repo_texts(q.resolved_unix@))
        + host_text();
    lemma_line_within(before, cl, after, rl);
    assert(before + cl + after =~= untagged_text(q));
}

/// A path the run closes to reads is closed as a whole subtree: for every
/// `deny_read` path `p`, the profile of every request holds the rule
/// `(deny file-read* (subpath "p"))` (with the run's message where the
/// request is tagged), so every path under `p` is refused reads, not only
/// `p` itself.
pub proof fn law_a_closed_read_path_is_denied_with_everything_under_it(q: ProfileRequest, k: int)
    requires
        0 <= k < q.closures.deny_read@.len(),
    ensures
        contains_text(
            profile_text(q),
            "(deny file-read* (subpath \""@ + profile_literal(q.closures.deny_read@[k]@) + "\")"@ + (if q.tag@.len() == 0 {
                ")\n"@
            } else {
                message_text(q.tag@)
            }),
        ),
{
    let p = q.closures.deny_read@[k]@;
    let line = "(deny file-read* (subpath \""@ + profile_literal(p) + "\"))"@;
    lemma_closed_read_rule(p);
    lemma_closed_read_line(q, k);
    lemma_tagging_keeps_deny_line(untagged_text(q), line, q.tag@);
}

/// A deny rule that is a line of a profile is a line of it once tagged,
/// with the run's message where there is a tag.
proof fn lemma_tagging_keeps_deny_line(u: Seq<char>, line: Seq<char>, tag: Seq<char>)
    requires
        has_line(u, line + "\n"@),
        forall|j: int| 0 <= j < line.len() ==> line[j] != '\n',
        starts(line, "(deny "@),
        line.len() > 0 && line.last() == ')',
    ensures
        contains_text(tagged_text(u, tag), line.drop_last() + (if tag.len() == 0 { ")\n"@ } else { message_text(tag) })),
{
    reveal_strlit(")\n");
    reveal_strlit("\n");
    if tag.len() == 0 {
        let i = choose|i: int| line_at(u, line + "\n"@, i);
        assert(line + "\n"@ =~= line.drop_last() + ")\n"@);
        assert(occurs_at(u, line.drop_last() + ")\n"@, i));
    } else {
        lemma_tagging_keeps_each_line(u, line, message_text(tag));
    }
}

/// Tagging keeps every line that is not a deny rule as it was.
pub proof fn law_tagging_keeps_other_lines(line: Seq<char>, tag: Seq<char>)
    requires
        !starts(line, "(deny "@),
    ensures
        tag_line(line, message_text(tag)) == line + "\n"@,
{
}

} // verus!
