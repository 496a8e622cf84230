//! The Unix sockets a run closes on Linux, as paths. The preset names
//! credential sockets by pattern; Linux has no rule over a pathname socket's
//! `connect`, so the sockets bound on this host now are read from the
//! kernel's socket table and each one a pattern matches is covered in the
//! command's mount namespace. Reading the table and the filesystem is the
//! host's.

use vstd::prelude::*;
use crate::text::{chars_of, first_occurrence, owned, same_text, slice_text, starts, string_of};
use crate::words::{lines, lines_of, text_less, texts};

verus! {

// ---------------------------------------------------------------------------
// A sorted set of paths
// ---------------------------------------------------------------------------

/// Each path before the next in the order of `String`.
pub open spec fn strictly_ascending(s: Seq<Seq<char>>) -> bool {
    forall|i: int, j: int| 0 <= i < j < s.len() ==> text_less(#[trigger] s[i], #[trigger] s[j])
}

/// `set` with `item` added in its place, unless it is there already: what a
/// sort followed by a dedup makes of a list, one item at a time.
pub fn insert_path(set: &mut Vec<String>, item: String)
    requires
        strictly_ascending(texts(old(set)@)),
    ensures
        strictly_ascending(texts(final(set)@)),
        forall|x: Seq<char>| texts(final(set)@).contains(x) <==> (texts(old(set)@).contains(x) || x == item@),
{
    let ghost before = texts(set@);
    let it = chars_of(item.as_str());
    let mut k: usize = 0;
    while k < set.len() && crate::words::less_text(chars_of(set[k].as_str()).as_slice(), it.as_slice())
        invariant
            k <= set@.len(),
            texts(set@) == before,
            it@ == item@,
            strictly_ascending(before),
            forall|j: int| 0 <= j < k ==> text_less(#[trigger] before[j], item@),
        decreases set.len() - k,
    {
        assert(before[k as int] == set@[k as int]@);
        k = k + 1;
    }
    if k < set.len() && same_text(set[k].as_str(), item.as_str()) {
        assert(before[k as int] == item@);
        assert forall|x: Seq<char>| before.contains(x) <==> (before.contains(x) || x == item@) by {
            if x == item@ {
                assert(before[k as int] == x);
            }
        }
        return;
    }
    proof {
        if k < set.len() {
            let at = before[k as int];
            assert(at == set@[k as int]@);
            crate::words::lemma_text_less_total(at, item@);
            assert(text_less(item@, at));
            assert forall|j: int| k < j < before.len() implies text_less(item@, #[trigger] before[j]) by {
                crate::words::lemma_text_less_transitive(item@, at, before[j]);
            }
        }
    }
    let ghost x0 = item@;
    set.insert(k, item);
    proof {
        let after = texts(set@);
        assert(after =~= before.insert(k as int, x0));
        assert forall|i: int, j: int| 0 <= i < j < after.len() implies text_less(#[trigger] after[i], #[trigger] after[j]) by {
            if j < k {
                assert(after[i] == before[i] && after[j] == before[j]);
            } else if j == k {
                assert(after[j] == x0 && after[i] == before[i]);
            } else if i == k {
                assert(after[i] == x0 && after[j] == before[j - 1]);
            } else if i < k {
                assert(after[i] == before[i] && after[j] == before[j - 1]);
                crate::words::lemma_text_less_transitive(before[i], x0, before[j - 1]);
            } else {
                assert(after[i] == before[i - 1] && after[j] == before[j - 1]);
            }
        }
        assert forall|x: Seq<char>| after.contains(x) <==> (before.contains(x) || x == x0) by {
            if after.contains(x) {
                let w = choose|w: int| 0 <= w < after.len() && after[w] == x;
                if w < k {
                    assert(before[w] == x);
                } else if w > k {
                    assert(before[w - 1] == x);
                }
            }
            if before.contains(x) {
                let w = choose|w: int| 0 <= w < before.len() && before[w] == x;
                if w < k {
                    assert(after[w] == x);
                } else {
                    assert(after[w + 1] == x);
                }
            }
            if x == x0 {
                assert(after[k as int] == x);
            }
        }
    }
}

// ---------------------------------------------------------------------------
// The socket table
// ---------------------------------------------------------------------------

/// The path a line of the socket table ends in: what follows the first
/// ` /` (the fields before the path hold no `/`); none for a socket without
/// a path.
pub open spec fn line_path(line: Seq<char>) -> Option<Seq<char>> {
    match first_occurrence(line, " /"@) {
        Some(at) => Some(line.subrange(at + 1, line.len() as int)),
        None => None,
    }
}

/// Some line of the table after its header names `path`.
pub open spec fn names_path(table: Seq<char>, path: Seq<char>) -> bool {
    exists|i: int| 1 <= i < lines(table).len() && line_path(#[trigger] lines(table)[i]) == Some(path)
}

/// The pathname sockets a socket table (`/proc/net/unix`) lists, sorted,
/// each once. Abstract sockets have no path and are not among them.
pub fn bound_sockets(table: &str) -> (r: Vec<String>)
    ensures
        strictly_ascending(texts(r@)),
        forall|p: Seq<char>| texts(r@).contains(p) <==> names_path(table@, p),
{
    let chars = chars_of(table);
    let rows = lines_of(chars.as_slice());
    let marker = chars_of(" /");
    let mut paths: Vec<String> = Vec::new();
    let mut i: usize = 1;
    while i < rows.len()
        invariant
            1 <= i,
            rows@.len() == lines(table@).len(),
            chars@ == table@,
            marker@ == " /"@,
            forall|k: int| 0 <= k < rows@.len() ==> (#[trigger] rows@[k])@ == lines(chars@)[k],
            strictly_ascending(texts(paths@)),
            forall|p: Seq<char>| texts(paths@).contains(p) <==> (exists|k: int| 1 <= k < i && k < rows@.len() && line_path(
                #[trigger] lines(table@)[k],
            ) == Some(p)),
        decreases rows.len() - i,
    {
        let row = &rows[i];
        let ghost before = texts(paths@);
        proof {
            reveal_strlit(" /");
        }
        match crate::text::find(row.as_slice(), marker.as_slice()) {
            Some(at) => {
                let n = row.len();
                assert(marker@.len() == 2);
                assert(at + 2 <= n);
                let path = slice_text(row.as_slice(), at + 1, n);
                assert(line_path(lines(table@)[i as int]) == Some(path@));
                insert_path(&mut paths, path);
                assert forall|p: Seq<char>| texts(paths@).contains(p) <==> (exists|k: int|
                    1 <= k < i + 1 && k < rows@.len() && line_path(#[trigger] lines(table@)[k]) == Some(p)) by {
                    if p == path@ {
                        assert(line_path(lines(table@)[i as int]) == Some(p));
                    }
                    if exists|k: int| 1 <= k < i + 1 && k < rows@.len() && line_path(#[trigger] lines(table@)[k]) == Some(p) {
                        let k = choose|k: int| 1 <= k < i + 1 && k < rows@.len() && line_path(#[trigger] lines(table@)[k]) == Some(p);
                        if k < i {
                            assert(before.contains(p));
                        }
                    }
                }
            },
            None => {
                assert(line_path(lines(table@)[i as int]) is None);
                assert forall|p: Seq<char>| texts(paths@).contains(p) <==> (exists|k: int|
                    1 <= k < i + 1 && k < rows@.len() && line_path(#[trigger] lines(table@)[k]) == Some(p)) by {
                    if exists|k: int| 1 <= k < i + 1 && k < rows@.len() && line_path(#[trigger] lines(table@)[k]) == Some(p) {
                        let k = choose|k: int| 1 <= k < i + 1 && k < rows@.len() && line_path(#[trigger] lines(table@)[k]) == Some(p);
                        if k < i {
                            assert(before.contains(p));
                        }
                    }
                }
            },
        }
        i = i + 1;
    }
    paths
}

// ---------------------------------------------------------------------------
// Which sockets close
// ---------------------------------------------------------------------------

/// Whether a regular expression, as the `regex` crate compiles it, matches
/// somewhere in a text; false where the pattern does not compile.
pub uninterp spec fn regex_match(pattern: Seq<char>, text: Seq<char>) -> bool;

/// `regex::Regex::new(pattern)` and `is_match(text)`. What a pattern
/// matches is the `regex` crate's; the contract names it. A pattern that
/// does not compile matches nothing (the patterns were checked when the
/// request was read).
#[verifier::external_body]
fn pattern_matches(pattern: &str, text: &str) -> (r: bool)
    ensures
        r == regex_match(pattern@, text@),
{
    regex::Regex::new(pattern).map(|compiled| compiled.is_match(text)).unwrap_or(false)
}

/// Some pattern matches the path.
pub open spec fn any_pattern(patterns: Seq<Seq<char>>, path: Seq<char>) -> bool {
    exists|k: int| 0 <= k < patterns.len() && regex_match(#[trigger] patterns[k], path)
}

/// The paths some pattern matches, in the order they come.
pub open spec fn matched(paths: Seq<Seq<char>>, patterns: Seq<Seq<char>>) -> Seq<Seq<char>>
    decreases paths.len(),
{
    if paths.len() == 0 {
        Seq::empty()
    } else if any_pattern(patterns, paths.last()) {
        matched(paths.drop_last(), patterns).push(paths.last())
    } else {
        matched(paths.drop_last(), patterns)
    }
}

/// The bound sockets some `--deny-unix` pattern matches, in order.
pub fn matching_sockets(bound: &Vec<String>, deny_unix: &Vec<String>) -> (r: Vec<String>)
    ensures
        texts(r@) == matched(texts(bound@), texts(deny_unix@)),
        r@.len() <= bound@.len(),
        forall|p: Seq<char>| texts(r@).contains(p) <==> (texts(bound@).contains(p) && any_pattern(texts(deny_unix@), p)),
{
    let mut out: Vec<String> = Vec::new();
    let mut i: usize = 0;
    while i < bound.len()
        invariant
            i <= bound@.len(),
            out@.len() <= i,
            texts(out@) == matched(texts(bound@).take(i as int), texts(deny_unix@)),
            forall|p: Seq<char>| texts(out@).contains(p) <==> (texts(bound@).take(i as int).contains(p) && any_pattern(
                texts(deny_unix@),
                p,
            )),
        decreases bound.len() - i,
    {
        let path = bound[i].as_str();
        let mut hit = false;
        let mut j: usize = 0;
        while j < deny_unix.len()
            invariant
                j <= deny_unix@.len(),
                hit == exists|k: int| 0 <= k < j && regex_match(#[trigger] texts(deny_unix@)[k], path@),
            decreases deny_unix.len() - j,
        {
            if pattern_matches(deny_unix[j].as_str(), path) {
                assert(regex_match(texts(deny_unix@)[j as int], path@));
                hit = true;
            }
            j = j + 1;
        }
        let ghost before = texts(out@);
        if hit {
            out.push(owned(path));
            assert(texts(out@) =~= before.push(path@));
        }
        proof {
            let t0 = texts(bound@).take(i as int);
            let t1 = texts(bound@).take(i + 1);
            assert(t1 =~= t0.push(path@));
            assert(t1.drop_last() =~= t0);
            assert(hit == any_pattern(texts(deny_unix@), path@));
            assert(texts(out@) =~= matched(t1, texts(deny_unix@)));
            assert forall|p: Seq<char>| texts(out@).contains(p) <==> (t1.contains(p) && any_pattern(texts(deny_unix@), p)) by {
                if texts(out@).contains(p) {
                    if before.contains(p) {
                        assert(t0.contains(p));
                        let w = choose|w: int| 0 <= w < t0.len() && #[trigger] t0[w] == p;
                        assert(t1[w] == p);
                    } else {
                        let w = choose|w: int| 0 <= w < texts(out@).len() && #[trigger] texts(out@)[w] == p;
                        assert(w == before.len());
                        assert(p == path@);
                        assert(t1[i as int] == p);
                    }
                }
                if t1.contains(p) && any_pattern(texts(deny_unix@), p) {
                    let w = choose|w: int| 0 <= w < t1.len() && #[trigger] t1[w] == p;
                    if w < i {
                        assert(t0[w] == p);
                        assert(before.contains(p));
                        let v = choose|v: int| 0 <= v < before.len() && #[trigger] before[v] == p;
                        assert(texts(out@)[v] == p);
                    } else {
                        assert(p == path@);
                        assert(texts(out@)[texts(out@).len() - 1] == p);
                    }
                }
            }
        }
        i = i + 1;
    }
    assert(texts(bound@).take(bound@.len() as int) =~= texts(bound@));
    out
}

/// Whether `path` is `dir` or lies beneath it.
pub open spec fn beneath(path: Seq<char>, dir: Seq<char>) -> bool {
    path == dir || starts(path, dir + "/"@)
}

/// Some hidden path covers `path` already.
pub open spec fn covered(hidden: Seq<Seq<char>>, path: Seq<char>) -> bool {
    exists|k: int| 0 <= k < hidden.len() && beneath(path, #[trigger] hidden[k])
}

/// The sockets that close, from the matching ones that are still there:
/// each as the path the kernel resolves, only where it is still a socket,
/// not one `--allow-unix` names (resolved), not beneath a path already
/// hidden, and each once, in order.
pub open spec fn closing(candidates: Seq<(Seq<char>, bool)>, allowed: Seq<Seq<char>>, hidden: Seq<Seq<char>>) -> Seq<Seq<char>>
    decreases candidates.len(),
{
    if candidates.len() == 0 {
        Seq::empty()
    } else {
        let rest = closing(candidates.drop_last(), allowed, hidden);
        let (resolved, socket) = candidates.last();
        if !socket || allowed.contains(resolved) || covered(hidden, resolved) || rest.contains(resolved) {
            rest
        } else {
            rest.push(resolved)
        }
    }
}

fn listed(list: &Vec<String>, item: &str) -> (r: bool)
    ensures
        r == texts(list@).contains(item@),
{
    let mut i: usize = 0;
    while i < list.len()
        invariant
            i <= list@.len(),
            forall|k: int| 0 <= k < i ==> list@[k]@ != item@,
        decreases list.len() - i,
    {
        if same_text(list[i].as_str(), item) {
            assert(texts(list@)[i as int] == item@);
            return true;
        }
        i = i + 1;
    }
    proof {
        if texts(list@).contains(item@) {
            let k = choose|k: int| 0 <= k < texts(list@).len() && texts(list@)[k] == item@;
            assert(list@[k]@ == item@);
        }
    }
    false
}

fn is_covered(hidden: &Vec<String>, path: &str) -> (r: bool)
    ensures
        r == covered(texts(hidden@), path@),
{
    let p = chars_of(path);
    let mut i: usize = 0;
    while i < hidden.len()
        invariant
            i <= hidden@.len(),
            p@ == path@,
            forall|k: int| 0 <= k < i ==> !beneath(path@, #[trigger] texts(hidden@)[k]),
        decreases hidden.len() - i,
    {
        let mut dir = owned(hidden[i].as_str());
        crate::text::push_char(&mut dir, '/');
        let d = chars_of(dir.as_str());
        if same_text(path, hidden[i].as_str()) || crate::text::starts_with(p.as_slice(), d.as_slice()) {
            proof {
                reveal_strlit("/");
                assert(dir@ =~= hidden@[i as int]@ + "/"@);
            }
            assert(beneath(path@, texts(hidden@)[i as int]));
            return true;
        }
        proof {
            reveal_strlit("/");
            assert(dir@ =~= hidden@[i as int]@ + "/"@);
        }
        i = i + 1;
    }
    false
}

/// The sockets that close, from the matching ones as they are now: each
/// candidate's resolved path and whether it is still a socket. `allowed`
/// are the `--allow-unix` paths, resolved; `hidden` the paths the mount
/// namespace covers already.
pub fn closed_sockets(candidates: &Vec<(String, bool)>, allowed: &Vec<String>, hidden: &Vec<String>) -> (r: Vec<String>)
    ensures
        texts(r@) == closing(candidates@.map_values(|c: (String, bool)| (c.0@, c.1)), texts(allowed@), texts(hidden@)),
{
    let ghost cs = candidates@.map_values(|c: (String, bool)| (c.0@, c.1));
    let mut out: Vec<String> = Vec::new();
    let mut i: usize = 0;
    while i < candidates.len()
        invariant
            i <= candidates@.len(),
            cs == candidates@.map_values(|c: (String, bool)| (c.0@, c.1)),
            texts(out@) == closing(cs.take(i as int), texts(allowed@), texts(hidden@)),
        decreases candidates.len() - i,
    {
        proof {
            assert(cs.take(i + 1).drop_last() =~= cs.take(i as int));
            assert(cs.take(i + 1).last() == (candidates@[i as int].0@, candidates@[i as int].1));
        }
        let (resolved, socket) = (&candidates[i].0, candidates[i].1);
        if socket && !listed(allowed, resolved.as_str()) && !is_covered(hidden, resolved.as_str()) && !listed(&out, resolved.as_str()) {
            let ghost before = texts(out@);
            out.push(owned(resolved.as_str()));
            assert(texts(out@) =~= before.push(resolved@));
        }
        i = i + 1;
    }
    assert(cs.take(candidates@.len() as int) =~= cs);
    out
}

/// Every socket closes once: the closing list holds no path twice.
pub proof fn law_each_socket_closes_once(candidates: Seq<(Seq<char>, bool)>, allowed: Seq<Seq<char>>, hidden: Seq<Seq<char>>)
    ensures
        forall|i: int, j: int|
            0 <= i < j < closing(candidates, allowed, hidden).len() ==> closing(candidates, allowed, hidden)[i]
                != closing(candidates, allowed, hidden)[j],
        forall|i: int|
            0 <= i < closing(candidates, allowed, hidden).len() ==> !allowed.contains(
                #[trigger] closing(candidates, allowed, hidden)[i],
            ),
    decreases candidates.len(),
{
    if candidates.len() > 0 {
        law_each_socket_closes_once(candidates.drop_last(), allowed, hidden);
        let rest = closing(candidates.drop_last(), allowed, hidden);
        let (resolved, socket) = candidates.last();
        if !(!socket || allowed.contains(resolved) || covered(hidden, resolved) || rest.contains(resolved)) {
            let all = rest.push(resolved);
            assert forall|i: int, j: int| 0 <= i < j < all.len() implies all[i] != all[j] by {
                if j == all.len() - 1 {
                    assert(all[i] == rest[i]);
                    if rest[i] == resolved {
                        assert(rest.contains(resolved));
                    }
                }
            }
        }
    }
}

} // verus!
