//! What the command's mount namespace covers before the command exists: the
//! paths closed to reads, the credential sockets, and the protections inside
//! each writable mount, in the order they are mounted. Which paths exist,
//! and mounting, are the host's.

use vstd::prelude::*;
use crate::text::{owned, push_str, same_text, starts};
use crate::words::texts;

verus! {

/// What is done to one path.
#[derive(Clone, Copy, PartialEq, Eq, Debug, Structural)]
pub enum Cover {
    /// Closed to reads: a directory under an empty tmpfs no one may enter.
    HideDirectory,
    /// Closed to reads: a file (or a socket) under `/dev/null`.
    HideFile,
    /// Protected inside a writable mount: bound onto itself read-only.
    Freeze,
    /// Bound onto itself only to become a mount point, so it cannot be
    /// renamed away and replaced.
    Pin,
}

/// Whether `path` lies inside another of `paths`.
pub open spec fn inside_another(paths: Seq<Seq<char>>, path: Seq<char>) -> bool {
    exists|k: int| 0 <= k < paths.len() && paths[k] != path && starts(path, #[trigger] paths[k] + "/"@)
}

/// The covers of the closed paths that exist (each with whether it is a
/// directory): only the outermost, since one inside another is covered with
/// it and could not be mounted on once it is.
pub open spec fn read_covers(existing: Seq<(Seq<char>, bool)>, all: Seq<Seq<char>>) -> Seq<(Seq<char>, Cover)>
    decreases existing.len(),
{
    if existing.len() == 0 {
        Seq::empty()
    } else {
        let rest = read_covers(existing.drop_last(), all);
        let (path, dir) = existing.last();
        if inside_another(all, path) {
            rest
        } else {
            rest.push((path, if dir { Cover::HideDirectory } else { Cover::HideFile }))
        }
    }
}

/// The texts of a list of covers.
pub open spec fn cover_texts(c: Seq<(String, Cover)>) -> Seq<(Seq<char>, Cover)> {
    c.map_values(|p: (String, Cover)| (p.0@, p.1))
}

fn inside(paths: &Vec<(String, bool)>, path: &str) -> (r: bool)
    ensures
        r == inside_another(paths@.map_values(|p: (String, bool)| p.0@), path@),
{
    let ghost all = paths@.map_values(|p: (String, bool)| p.0@);
    let chars = crate::text::chars_of(path);
    let mut i: usize = 0;
    while i < paths.len()
        invariant
            i <= paths@.len(),
            all == paths@.map_values(|p: (String, bool)| p.0@),
            chars@ == path@,
            forall|k: int| 0 <= k < i ==> !(all[k] != path@ && starts(path@, #[trigger] all[k] + "/"@)),
        decreases paths.len() - i,
    {
        let mut dir = owned(paths[i].0.as_str());
        push_str(&mut dir, "/");
        let d = crate::text::chars_of(dir.as_str());
        let differs = !same_text(paths[i].0.as_str(), path);
        if differs && crate::text::starts_with(chars.as_slice(), d.as_slice()) {
            assert(all[i as int] != path@ && starts(path@, all[i as int] + "/"@));
            return true;
        }
        i = i + 1;
    }
    false
}

/// What the mount namespace covers, in order: the closed paths that exist,
/// outermost only, as directories or files; every closed socket as a file;
/// then the protections of each writable mount.
pub fn hidden_covers(existing: &Vec<(String, bool)>, sockets: &Vec<String>, protections: &Vec<(String, Cover)>) -> (r: Vec<(String, Cover)>)
    ensures
        cover_texts(r@) == read_covers(existing@.map_values(|p: (String, bool)| (p.0@, p.1)), existing@.map_values(
            |p: (String, bool)| p.0@,
        )) + texts(sockets@).map_values(|s: Seq<char>| (s, Cover::HideFile)) + cover_texts(protections@),
{
    let ghost ex = existing@.map_values(|p: (String, bool)| (p.0@, p.1));
    let ghost all = existing@.map_values(|p: (String, bool)| p.0@);
    let mut out: Vec<(String, Cover)> = Vec::new();
    let mut i: usize = 0;
    while i < existing.len()
        invariant
            i <= existing@.len(),
            ex == existing@.map_values(|p: (String, bool)| (p.0@, p.1)),
            all == existing@.map_values(|p: (String, bool)| p.0@),
            cover_texts(out@) == read_covers(ex.take(i as int), all),
        decreases existing.len() - i,
    {
        proof {
            assert(ex.take(i + 1).drop_last() =~= ex.take(i as int));
            assert(ex.take(i + 1).last() == (existing@[i as int].0@, existing@[i as int].1));
        }
        if !inside(existing, existing[i].0.as_str()) {
            let how = if existing[i].1 { Cover::HideDirectory } else { Cover::HideFile };
            let ghost before = cover_texts(out@);
            out.push((owned(existing[i].0.as_str()), how));
            assert(cover_texts(out@) =~= before.push((existing@[i as int].0@, how)));
        }
        i = i + 1;
    }
    assert(ex.take(existing@.len() as int) =~= ex);
    let ghost first = cover_texts(out@);
    let mut j: usize = 0;
    while j < sockets.len()
        invariant
            j <= sockets@.len(),
            cover_texts(out@) == first + texts(sockets@).take(j as int).map_values(|s: Seq<char>| (s, Cover::HideFile)),
        decreases sockets.len() - j,
    {
        let ghost before = cover_texts(out@);
        out.push((owned(sockets[j].as_str()), Cover::HideFile));
        assert(cover_texts(out@) =~= before.push((sockets@[j as int]@, Cover::HideFile)));
        assert(texts(sockets@).take(j + 1).map_values(|s: Seq<char>| (s, Cover::HideFile)) =~= texts(sockets@).take(
            j as int,
        ).map_values(|s: Seq<char>| (s, Cover::HideFile)).push((sockets@[j as int]@, Cover::HideFile)));
        j = j + 1;
    }
    assert(texts(sockets@).take(sockets@.len() as int) =~= texts(sockets@));
    let ghost second = cover_texts(out@);
    let mut k: usize = 0;
    while k < protections.len()
        invariant
            k <= protections@.len(),
            cover_texts(out@) == second + cover_texts(protections@.take(k as int)),
        decreases protections.len() - k,
    {
        let ghost before = cover_texts(out@);
        out.push((owned(protections[k].0.as_str()), protections[k].1));
        assert(cover_texts(out@) =~= before.push((protections@[k as int].0@, protections@[k as int].1)));
        assert(cover_texts(protections@.take(k + 1)) =~= cover_texts(protections@.take(k as int)).push(
            (protections@[k as int].0@, protections@[k as int].1),
        ));
        k = k + 1;
    }
    assert(protections@.take(protections@.len() as int) =~= protections@);
    out
}

/// The protections of one writable mount, given what exists there: the
/// mount root pinned; where it belongs to a repository and parts of it are
/// closed, its `.git` pinned if it is a directory and each existing closed
/// part frozen; then each existing protected name frozen.
pub fn protections(
    mount: &str,
    dot_git_dir: bool,
    repository_parts: &Vec<(String, bool)>,
    names: &Vec<(String, bool)>,
) -> (r: Vec<(String, Cover)>)
    ensures
        r@.len() >= 1,
        r@[0].0@ == mount@ && r@[0].1 == Cover::Pin,
        forall|i: int| 1 <= i < r@.len() ==> (#[trigger] r@[i]).1 == Cover::Freeze || (r@[i].1 == Cover::Pin && i == 1
            && dot_git_dir && r@[i].0@ == mount@ + "/.git"@),
        cover_texts(r@) == seq![(mount@, Cover::Pin)] + (if dot_git_dir {
            seq![(mount@ + "/.git"@, Cover::Pin)]
        } else {
            Seq::empty()
        }) + existing_frozen(repository_parts@) + existing_frozen(names@),
{
    let mut covers: Vec<(String, Cover)> = Vec::new();
    covers.push((owned(mount), Cover::Pin));
    if dot_git_dir {
        let mut dot_git = owned(mount);
        push_str(&mut dot_git, "/.git");
        covers.push((dot_git, Cover::Pin));
    }
    let ghost head = cover_texts(covers@);
    assert(head =~= seq![(mount@, Cover::Pin)] + (if dot_git_dir {
        seq![(mount@ + "/.git"@, Cover::Pin)]
    } else {
        Seq::<(Seq<char>, Cover)>::empty()
    }));
    push_existing(&mut covers, repository_parts);
    push_existing(&mut covers, names);
    proof {
        assert(covers@[0] == covers@.take(1)[0]);
    }
    covers
}

/// The paths that exist, each frozen, in order.
pub open spec fn existing_frozen(paths: Seq<(String, bool)>) -> Seq<(Seq<char>, Cover)>
    decreases paths.len(),
{
    if paths.len() == 0 {
        Seq::empty()
    } else if paths.last().1 {
        existing_frozen(paths.drop_last()).push((paths.last().0@, Cover::Freeze))
    } else {
        existing_frozen(paths.drop_last())
    }
}

fn push_existing(out: &mut Vec<(String, Cover)>, paths: &Vec<(String, bool)>)
    ensures
        cover_texts(final(out)@) == cover_texts(old(out)@) + existing_frozen(paths@),
        final(out)@.len() >= old(out)@.len(),
        forall|i: int| 0 <= i < old(out)@.len() ==> final(out)@[i] == old(out)@[i],
        forall|i: int| old(out)@.len() <= i < final(out)@.len() ==> (#[trigger] final(out)@[i]).1 == Cover::Freeze,
{
    let ghost start = out@;
    let mut i: usize = 0;
    while i < paths.len()
        invariant
            i <= paths@.len(),
            out@.len() >= start.len(),
            forall|k: int| 0 <= k < start.len() ==> out@[k] == start[k],
            forall|k: int| start.len() <= k < out@.len() ==> (#[trigger] out@[k]).1 == Cover::Freeze,
            cover_texts(out@) == cover_texts(start) + existing_frozen(paths@.take(i as int)),
        decreases paths.len() - i,
    {
        proof {
            assert(paths@.take(i + 1).drop_last() =~= paths@.take(i as int));
        }
        if paths[i].1 {
            let ghost before = cover_texts(out@);
            out.push((owned(paths[i].0.as_str()), Cover::Freeze));
            assert(cover_texts(out@) =~= before.push((paths@[i as int].0@, Cover::Freeze)));
        }
        assert(cover_texts(out@) =~= cover_texts(start) + existing_frozen(paths@.take(i + 1)));
        i = i + 1;
    }
    assert(paths@.take(paths@.len() as int) =~= paths@);
}

} // verus!
